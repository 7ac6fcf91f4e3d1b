//! JSON documents as plain values.
//!
//! `Doc` is the document type the rest of the library works on. `serde_json`
//! parses and prints; its values are opened and closed one level at a time,
//! and the recursion over them is verified here. A fractional number is carried
//! along as `serde_json` holds it and never computed with.

use vstd::prelude::*;

use crate::text::{owned, same};

verus! {

// ---------------------------------------------------------------------------
// The mathematical document
// ---------------------------------------------------------------------------

/// `serde_json::Value`, a parsed document.
#[verifier::external_type_specification]
#[verifier::external_body]
pub struct ExValue(serde_json::Value);

/// `serde_json::Number`, a number inside a parsed document.
#[verifier::external_type_specification]
#[verifier::external_body]
pub struct ExNumber(serde_json::Number);

/// `Clone` of a `serde_json::Number` gives the same number.
pub assume_specification[ <serde_json::Number as Clone>::clone ](
    n: &serde_json::Number,
) -> (r: serde_json::Number)
    ensures
        r == *n,
;

/// Whether a `serde_json::Number` is held as a fractional number and not as an
/// integer.
pub uninterp spec fn fractional(n: serde_json::Number) -> bool;

/// `Number::is_f64` tells whether a number is held as a fractional number.
pub assume_specification[ serde_json::Number::is_f64 ](n: &serde_json::Number) -> (r: bool)
    ensures
        r == fractional(*n),
;

/// `serde_json::Error`, the reason a text is no document.
#[verifier::external_type_specification]
#[verifier::external_body]
pub struct ExError(serde_json::Error);

/// A JSON document. Objects keep the order of their fields.
pub enum Json {
    Null,
    Bool(bool),
    Int(int),
    Float(serde_json::Number),
    Text(Seq<char>),
    List(Seq<Json>),
    Object(Seq<(Seq<char>, Json)>),
}

/// The document that a `serde_json::Value` holds.
pub uninterp spec fn json_of(v: serde_json::Value) -> Json;

/// The document that a text spells, if it spells one.
pub uninterp spec fn parsed_json(text: Seq<char>) -> Option<Json>;

/// The compact spelling of a document.
pub uninterp spec fn json_text(doc: Json) -> Seq<char>;

/// The number that a text spells, if it spells one.
pub uninterp spec fn parsed_number(text: Seq<char>) -> Option<serde_json::Number>;

// ---------------------------------------------------------------------------
// The executable document
// ---------------------------------------------------------------------------

/// A fractional number, as `serde_json` holds it.
#[derive(Debug, PartialEq, Eq)]
pub struct Fraction {
    number: serde_json::Number,
}

impl Fraction {
    pub closed spec fn view(&self) -> serde_json::Number {
        self.number
    }

    #[verifier::type_invariant]
    spec fn holds_fraction(&self) -> bool {
        fractional(self.number)
    }

    /// The number, where it is held as a fractional one.
    pub fn new(number: serde_json::Number) -> (r: Option<Fraction>)
        ensures
            match r {
                Some(f) => fractional(number) && f@ == number,
                None => !fractional(number),
            },
    {
        if number.is_f64() {
            Some(Fraction { number })
        } else {
            None
        }
    }

    /// The number.
    pub fn number(&self) -> (r: &serde_json::Number)
        ensures
            *r == self@,
            fractional(self@),
    {
        proof {
            use_type_invariant(self);
        }
        &self.number
    }

    /// The same number once more.
    pub fn copy(&self) -> (r: Fraction)
        ensures
            r@ == self@,
    {
        proof {
            use_type_invariant(self);
        }
        Fraction { number: self.number.clone() }
    }
}

/// A JSON number: an integer, or a fractional number as `serde_json` holds it.
#[derive(Debug, PartialEq, Eq)]
pub enum Num {
    Pos(u64),
    Neg(i64),
    Float(Fraction),
}

/// A JSON document.
#[derive(Debug, PartialEq, Eq)]
pub enum Doc {
    Null,
    Bool(bool),
    Num(Num),
    Text(String),
    List(Vec<Doc>),
    Object(Vec<(String, Doc)>),
}

/// The fields of an object, in order.
pub type Fields = Vec<(String, Doc)>;

impl Num {
    pub open spec fn view(&self) -> Json {
        match self {
            Num::Pos(n) => Json::Int(*n as int),
            Num::Neg(n) => Json::Int(*n as int),
            Num::Float(f) => Json::Float(f@),
        }
    }
}

impl Doc {
    pub open spec fn view(&self) -> Json
        decreases self,
    {
        match self {
            Doc::Null => Json::Null,
            Doc::Bool(b) => Json::Bool(*b),
            Doc::Num(n) => n.view(),
            Doc::Text(s) => Json::Text(s@),
            Doc::List(items) => Json::List(
                Seq::new(
                    items@.len(),
                    |i: int|
                        if 0 <= i < items@.len() {
                            items@[i].view()
                        } else {
                            Json::Null
                        },
                ),
            ),
            Doc::Object(fields) => Json::Object(
                Seq::new(
                    fields@.len(),
                    |i: int|
                        if 0 <= i < fields@.len() {
                            (fields@[i].0@, fields@[i].1.view())
                        } else {
                            (Seq::empty(), Json::Null)
                        },
                ),
            ),
        }
    }
}

/// One level of a document: what stands in it directly is still unopened.
pub enum Shape {
    Null,
    Bool(bool),
    Pos(u64),
    Neg(i64),
    Float(serde_json::Number),
    Text(String),
    List(Vec<serde_json::Value>),
    Object(Vec<(String, serde_json::Value)>),
}

impl Shape {
    pub open spec fn view(&self) -> Json {
        match self {
            Shape::Null => Json::Null,
            Shape::Bool(b) => Json::Bool(*b),
            Shape::Pos(n) => Json::Int(*n as int),
            Shape::Neg(n) => Json::Int(*n as int),
            Shape::Float(n) => Json::Float(*n),
            Shape::Text(s) => Json::Text(s@),
            Shape::List(items) => Json::List(items@.map_values(|v: serde_json::Value| json_of(v))),
            Shape::Object(fields) => Json::Object(
                fields@.map_values(|f: (String, serde_json::Value)| (f.0@, json_of(f.1))),
            ),
        }
    }
}

/// No key occurs twice in an object's fields.
pub open spec fn distinct_keys<V>(fields: Seq<(Seq<char>, V)>) -> bool {
    forall|i: int, j: int|
        #![trigger fields[i], fields[j]]
        0 <= i < j < fields.len() ==> fields[i].0 != fields[j].0
}

/// No object anywhere in the document holds a key twice.
pub open spec fn unambiguous(doc: Json) -> bool
    decreases doc,
{
    match doc {
        Json::List(items) => {
            forall|i: int| 0 <= i < items.len() ==> unambiguous(#[trigger] items[i])
        },
        Json::Object(fields) => {
            &&& distinct_keys(fields)
            &&& forall|i: int| 0 <= i < fields.len() ==> unambiguous((#[trigger] fields[i]).1)
        },
        _ => true,
    }
}

/// Nesting depth: a scalar has none, a list or an object one more than the
/// deepest of what stands in it.
pub open spec fn shallow(doc: Json, depth: nat) -> bool
    decreases doc,
{
    match doc {
        Json::List(items) => depth > 0 && forall|i: int|
            0 <= i < items.len() ==> shallow(#[trigger] items[i], (depth - 1) as nat),
        Json::Object(fields) => depth > 0 && forall|i: int|
            0 <= i < fields.len() ==> shallow((#[trigger] fields[i]).1, (depth - 1) as nat),
        _ => true,
    }
}

/// No key anywhere in the document starts with a dollar sign.
pub open spec fn plain_keys(doc: Json) -> bool
    decreases doc,
{
    match doc {
        Json::List(items) => forall|i: int| 0 <= i < items.len() ==> plain_keys(#[trigger] items[i]),
        Json::Object(fields) => forall|i: int|
            0 <= i < fields.len() ==> {
                &&& ((#[trigger] fields[i]).0.len() > 0 ==> fields[i].0[0] != '$')
                &&& plain_keys(fields[i].1)
            },
        _ => true,
    }
}

/// A document that reads back from its own text: no key occurs twice, none
/// starts with a dollar sign, it nests less than 128 levels deep, and its
/// numbers are integers or one half.
pub open spec fn readable(doc: Json) -> bool {
    &&& unambiguous(doc)
    &&& plain_keys(doc)
    &&& shallow(doc, 127)
    &&& exact_numbers(doc)
}

/// Every number in the document is an integer that fits 64 bits or is one half.
pub open spec fn exact_numbers(doc: Json) -> bool
    decreases doc,
{
    match doc {
        Json::Int(n) => i64::MIN <= n <= u64::MAX,
        Json::Float(n) => parsed_number("0.5"@) == Some(n),
        Json::List(items) => forall|i: int|
            0 <= i < items.len() ==> exact_numbers(#[trigger] items[i]),
        Json::Object(fields) => forall|i: int|
            0 <= i < fields.len() ==> exact_numbers((#[trigger] fields[i]).1),
        _ => true,
    }
}

// ---------------------------------------------------------------------------
// serde_json
// ---------------------------------------------------------------------------

/// Opens one level of a `serde_json::Value`: each variant, a number by
/// `Number::as_u64`, `Number::as_i64` or, failing both, as it is. Claimed: what
/// comes out is the same document, integers are negative exactly when held as
/// such, any other number is held as a fractional one, and no object holds a key
/// twice.
#[verifier::external_body]
fn open_value(v: serde_json::Value) -> (r: Shape)
    ensures
        r@ == json_of(v),
        r matches Shape::Neg(n) ==> n < 0,
        r matches Shape::Float(n) ==> fractional(n),
        r@ matches Json::Object(fields) ==> distinct_keys(fields),
{
    match v {
        serde_json::Value::Null => Shape::Null,
        serde_json::Value::Bool(b) => Shape::Bool(b),
        serde_json::Value::Number(n) => match (n.as_u64(), n.as_i64()) {
            (Some(u), _) => Shape::Pos(u),
            (None, Some(i)) => Shape::Neg(i),
            (None, None) => Shape::Float(n),
        },
        serde_json::Value::String(s) => Shape::Text(s),
        serde_json::Value::Array(items) => Shape::List(items),
        serde_json::Value::Object(map) => Shape::Object(map.into_iter().collect()),
    }
}

/// Closes one level into a `serde_json::Value`, variant by variant; an object's
/// fields go into a `serde_json::Map`, which keeps their order. Claimed: the
/// value holds the same document, where no key occurs twice and what is given as
/// a fractional number is held as one.
#[verifier::external_body]
fn close_value(shape: Shape) -> (r: serde_json::Value)
    requires
        shape@ matches Json::Object(fields) ==> distinct_keys(fields),
        shape matches Shape::Float(n) ==> fractional(n),
    ensures
        json_of(r) == shape@,
{
    match shape {
        Shape::Null => serde_json::Value::Null,
        Shape::Bool(b) => serde_json::Value::Bool(b),
        Shape::Pos(n) => serde_json::Value::from(n),
        Shape::Neg(n) => serde_json::Value::from(n),
        Shape::Float(n) => serde_json::Value::Number(n),
        Shape::Text(s) => serde_json::Value::String(s),
        Shape::List(items) => serde_json::Value::Array(items),
        Shape::Object(fields) => serde_json::Value::Object(fields.into_iter().collect()),
    }
}

/// `serde_json::from_str` into a `serde_json::Value`. Claimed: which document a
/// text spells, if any, depends on the text alone.
#[verifier::external_body]
fn read_value(text: &str) -> (r: Result<serde_json::Value, serde_json::Error>)
    ensures
        match r {
            Ok(v) => parsed_json(text@) == Some(json_of(v)),
            Err(_) => parsed_json(text@) is None,
        },
{
    serde_json::from_str(text)
}

/// `Display` of a `serde_json::Value`. Claimed: the text depends on the document
/// alone, and parses back to it where no key occurs twice or starts with a
/// dollar sign (`serde_json` keeps such keys for itself), the document nests
/// less than 128 levels deep (the parser's limit) and its numbers are integers
/// or one half.
#[verifier::external_body]
fn write_value(v: &serde_json::Value) -> (r: String)
    ensures
        r@ == json_text(json_of(*v)),
        readable(json_of(*v)) ==> parsed_json(r@) == Some(json_of(*v)),
{
    v.to_string()
}

/// `serde_json::from_str` into a `serde_json::Number`. Claimed: the number
/// depends on the text alone, and one digit, a point and one digit spell one that
/// is held as a fractional number.
#[verifier::external_body]
fn read_number(text: &str) -> (r: Result<serde_json::Number, serde_json::Error>)
    ensures
        match r {
            Ok(n) => parsed_number(text@) == Some(n),
            Err(_) => parsed_number(text@) is None,
        },
        text@.len() == 3 && '0' <= text@[0] <= '9' && text@[1] == '.' && '0' <= text@[2] <= '9'
            ==> r is Ok && fractional(r->Ok_0),
{
    serde_json::from_str(text)
}

// ---------------------------------------------------------------------------
// Between the two
// ---------------------------------------------------------------------------

/// The views of an object's fields.
pub open spec fn field_views(fields: Seq<(String, Doc)>) -> Seq<(Seq<char>, Json)> {
    fields.map_values(|f: (String, Doc)| (f.0@, f.1@))
}

/// The views of a list's items.
pub open spec fn doc_views(items: Seq<Doc>) -> Seq<Json> {
    items.map_values(|d: Doc| d@)
}

/// What the view of a list or an object is, over the views of what it holds.
pub broadcast proof fn doc_view_parts(d: Doc)
    ensures
        match d {
            Doc::List(items) => #[trigger] d@ == Json::List(doc_views(items@)),
            Doc::Object(fields) => d@ == Json::Object(field_views(fields@)),
            _ => true,
        },
{
    match d {
        Doc::List(items) => {
            assert(d@->List_0 =~= doc_views(items@));
        },
        Doc::Object(fields) => {
            assert(d@->Object_0 =~= field_views(fields@));
        },
        _ => {},
    }
}

/// The document inside a `serde_json::Value`.
fn doc_from(v: serde_json::Value) -> (r: Doc)
    ensures
        r@ == json_of(v),
        unambiguous(r@),
    decreases json_of(v),
{
    broadcast use doc_view_parts;

    let ghost whole = json_of(v);
    match open_value(v) {
        Shape::Null => Doc::Null,
        Shape::Bool(b) => Doc::Bool(b),
        Shape::Pos(n) => Doc::Num(Num::Pos(n)),
        Shape::Neg(n) => Doc::Num(Num::Neg(n)),
        Shape::Float(n) => Doc::Num(Num::Float(Fraction { number: n })),
        Shape::Text(s) => Doc::Text(s),
        Shape::List(items) => {
            let ghost all = items@;
            let mut out: Vec<Doc> = Vec::new();
            for item in it: items
                invariant
                    whole == json_of(v),
                    it.seq() == all,
                    whole == Json::List(all.map_values(|v: serde_json::Value| json_of(v))),
                    out@.len() == it.index(),
                    forall|i: int|
                        0 <= i < out@.len() ==> (#[trigger] out@[i])@ == json_of(all[i])
                            && unambiguous(out@[i]@),
            {
                assert(item == all[out@.len() as int]);
                assert(whole->List_0[out@.len() as int] == json_of(item));
                let d = doc_from(item);
                out.push(d);
            }
            assert(doc_views(out@) =~= whole->List_0);
            let r = Doc::List(out);
            assert(r@ == whole);
            assert forall|i: int| 0 <= i < whole->List_0.len() implies unambiguous(
                #[trigger] whole->List_0[i],
            ) by {
                assert(out@[i]@ == whole->List_0[i]);
            }
            r
        },
        Shape::Object(fields) => {
            let ghost all = fields@;
            let mut out: Fields = Vec::new();
            for field in it: fields
                invariant
                    whole == json_of(v),
                    it.seq() == all,
                    whole == Json::Object(
                        all.map_values(|f: (String, serde_json::Value)| (f.0@, json_of(f.1))),
                    ),
                    out@.len() == it.index(),
                    forall|i: int|
                        0 <= i < out@.len() ==> (#[trigger] out@[i]).0@ == all[i].0@
                            && out@[i].1@ == json_of(all[i].1) && unambiguous(out@[i].1@),
            {
                assert(field == all[out@.len() as int]);
                assert(whole->Object_0[out@.len() as int] == (field.0@, json_of(field.1)));
                assert(decreases_to!(whole => whole->Object_0[out@.len() as int]));
                assert(decreases_to!(whole->Object_0[out@.len() as int] => whole->Object_0[out@.len() as int].1));
                let d = doc_from(field.1);
                out.push((field.0, d));
            }
            assert(field_views(out@) =~= whole->Object_0);
            let r = Doc::Object(out);
            assert(r@ == whole);
            assert forall|i: int| 0 <= i < whole->Object_0.len() implies unambiguous(
                (#[trigger] whole->Object_0[i]).1,
            ) by {
                assert(out@[i].1@ == whole->Object_0[i].1);
            }
            r
        },
    }
}

/// A list is larger than each of its items.
proof fn descend_list(d: Doc, i: int)
    requires
        d is List,
        0 <= i < d->List_0@.len(),
    ensures
        decreases_to!(d => d->List_0@[i]),
{
    assert(decreases_to!(d => d->List_0));
    assert(decreases_to!(d->List_0 => d->List_0@));
    assert(decreases_to!(d->List_0@ => d->List_0@[i]));
}

/// An object is larger than what stands in each of its fields.
proof fn descend_object(d: Doc, i: int)
    requires
        d is Object,
        0 <= i < d->Object_0@.len(),
    ensures
        decreases_to!(d => d->Object_0@[i].1),
{
    assert(decreases_to!(d => d->Object_0));
    assert(decreases_to!(d->Object_0 => d->Object_0@));
    assert(decreases_to!(d->Object_0@ => d->Object_0@[i]));
    assert(decreases_to!(d->Object_0@[i] => d->Object_0@[i].1));
}

/// What stands in an unambiguous list is unambiguous.
proof fn unambiguous_item(items: Seq<Json>, i: int)
    requires
        unambiguous(Json::List(items)),
        0 <= i < items.len(),
    ensures
        unambiguous(items[i]),
{
    let doc = Json::List(items);
    assert(unambiguous(doc->List_0[i]));
}

/// The document as a `serde_json::Value`.
fn value_from(d: &Doc) -> (r: serde_json::Value)
    requires
        unambiguous(d@),
    ensures
        json_of(r) == d@,
    decreases d,
{
    broadcast use doc_view_parts;

    match d {
        Doc::Null => close_value(Shape::Null),
        Doc::Bool(b) => close_value(Shape::Bool(*b)),
        Doc::Num(Num::Pos(n)) => close_value(Shape::Pos(*n)),
        Doc::Num(Num::Neg(n)) => close_value(Shape::Neg(*n)),
        Doc::Num(Num::Float(f)) => close_value(Shape::Float(f.number().clone())),
        Doc::Text(s) => close_value(Shape::Text(owned(s.as_str()))),
        Doc::List(items) => {
            let mut out: Vec<serde_json::Value> = Vec::new();
            let mut i: usize = 0;
            while i < items.len()
                invariant
                    i <= items@.len(),
                    out@.len() == i,
                    *d == Doc::List(*items),
                    unambiguous(Json::List(doc_views(items@))),
                    forall|j: int| 0 <= j < i ==> json_of(#[trigger] out@[j]) == items@[j]@,
                decreases items@.len() - i,
            {
                proof {
                    unambiguous_item(doc_views(items@), i as int);
                }
                proof {
                    descend_list(*d, i as int);
                }
                out.push(value_from(&items[i]));
                i += 1;
            }
            let ghost views = out@.map_values(|v: serde_json::Value| json_of(v));
            assert(views =~= doc_views(items@));
            close_value(Shape::List(out))
        },
        Doc::Object(fields) => {
            let mut out: Vec<(String, serde_json::Value)> = Vec::new();
            let mut i: usize = 0;
            while i < fields.len()
                invariant
                    i <= fields@.len(),
                    out@.len() == i,
                    *d == Doc::Object(*fields),
                    unambiguous(Json::Object(field_views(fields@))),
                    forall|j: int|
                        0 <= j < i ==> (#[trigger] out@[j]).0@ == fields@[j].0@ && json_of(out@[j].1)
                            == fields@[j].1@,
                decreases fields@.len() - i,
            {
                assert(field_views(fields@)[i as int] == (fields@[i as int].0@, fields@[i as int].1@));
                let key = owned(fields[i].0.as_str());
                proof {
                    descend_object(*d, i as int);
                }
                out.push((key, value_from(&fields[i].1)));
                i += 1;
            }
            let ghost views = out@.map_values(|f: (String, serde_json::Value)| (f.0@, json_of(f.1)));
            assert(views =~= field_views(fields@));
            close_value(Shape::Object(out))
        },
    }
}

/// The document that `text` spells; none where it spells none.
pub fn parse_doc(text: &str) -> (r: Option<Doc>)
    ensures
        match r {
            Some(d) => parsed_json(text@) == Some(d@) && unambiguous(d@),
            None => parsed_json(text@) is None,
        },
{
    match read_value(text) {
        Ok(v) => Some(doc_from(v)),
        Err(_) => None,
    }
}

/// The compact spelling of a document, which reads back to it.
pub fn doc_text(d: &Doc) -> (r: String)
    requires
        unambiguous(d@),
    ensures
        r@ == json_text(d@),
        readable(d@) ==> parsed_json(r@) == Some(d@),
{
    write_value(&value_from(d))
}

/// One half, as a fractional number.
pub open spec fn half_json() -> Json {
    Json::Float(parsed_number("0.5"@)->0)
}

/// Zero, as a fractional number.
pub open spec fn zero_json() -> Json {
    Json::Float(parsed_number("0.0"@)->0)
}

/// One half, as a fractional number.
pub fn half() -> (r: Doc)
    ensures
        r@ == half_json(),
        exact_numbers(r@),
{
    proof {
        reveal_strlit("0.5");
    }
    match read_number("0.5") {
        Ok(n) => Doc::Num(Num::Float(Fraction { number: n })),
        Err(_) => Doc::Null,
    }
}

/// Zero, as a fractional number.
pub fn zero() -> (r: Doc)
    ensures
        r@ == zero_json(),
{
    proof {
        reveal_strlit("0.0");
    }
    match read_number("0.0") {
        Ok(n) => Doc::Num(Num::Float(Fraction { number: n })),
        Err(_) => Doc::Null,
    }
}

/// A copy of a document.
pub fn copy_doc(d: &Doc) -> (r: Doc)
    ensures
        r@ == d@,
    decreases d,
{
    broadcast use doc_view_parts;

    match d {
        Doc::Null => Doc::Null,
        Doc::Bool(b) => Doc::Bool(*b),
        Doc::Num(Num::Pos(n)) => Doc::Num(Num::Pos(*n)),
        Doc::Num(Num::Neg(n)) => Doc::Num(Num::Neg(*n)),
        Doc::Num(Num::Float(f)) => Doc::Num(Num::Float(f.copy())),
        Doc::Text(s) => Doc::Text(owned(s.as_str())),
        Doc::List(items) => {
            let mut out: Vec<Doc> = Vec::new();
            let mut i: usize = 0;
            while i < items.len()
                invariant
                    i <= items@.len(),
                    out@.len() == i,
                    *d == Doc::List(*items),
                    forall|j: int| 0 <= j < i ==> (#[trigger] out@[j])@ == items@[j]@,
                decreases items@.len() - i,
            {
                proof {
                    descend_list(*d, i as int);
                }
                out.push(copy_doc(&items[i]));
                i += 1;
            }
            assert(doc_views(out@) =~= doc_views(items@));
            Doc::List(out)
        },
        Doc::Object(fields) => {
            let mut out: Fields = Vec::new();
            let mut i: usize = 0;
            while i < fields.len()
                invariant
                    i <= fields@.len(),
                    out@.len() == i,
                    *d == Doc::Object(*fields),
                    forall|j: int|
                        0 <= j < i ==> (#[trigger] out@[j]).0@ == fields@[j].0@ && out@[j].1@
                            == fields@[j].1@,
                decreases fields@.len() - i,
            {
                let key = owned(fields[i].0.as_str());
                proof {
                    descend_object(*d, i as int);
                }
                out.push((key, copy_doc(&fields[i].1)));
                i += 1;
            }
            assert(field_views(out@) =~= field_views(fields@));
            Doc::Object(out)
        },
    }
}

// ---------------------------------------------------------------------------
// Fields
// ---------------------------------------------------------------------------

/// Where `key` first stands among the fields.
pub open spec fn key_index(fields: Seq<(Seq<char>, Json)>, key: Seq<char>) -> Option<int>
    decreases fields.len(),
{
    if fields.len() == 0 {
        None
    } else if fields.last().0 == key && key_index(fields.drop_last(), key) is None {
        Some(fields.len() - 1)
    } else {
        key_index(fields.drop_last(), key)
    }
}

/// What stands under `key`, if the document is an object that holds it.
pub open spec fn member(doc: Json, key: Seq<char>) -> Option<Json> {
    match doc {
        Json::Object(fields) => match key_index(fields, key) {
            Some(i) => Some(fields[i].1),
            None => None,
        },
        _ => None,
    }
}

/// The text that stands under `key`, if a text does.
pub open spec fn member_text(doc: Json, key: Seq<char>) -> Option<Seq<char>> {
    match member(doc, key) {
        Some(Json::Text(s)) => Some(s),
        _ => None,
    }
}

/// The fields with `value` under `key`: in the place of what stood there, or at
/// the end.
pub open spec fn with_field(
    fields: Seq<(Seq<char>, Json)>,
    key: Seq<char>,
    value: Json,
) -> Seq<(Seq<char>, Json)> {
    match key_index(fields, key) {
        Some(i) => fields.update(i, (key, value)),
        None => fields.push((key, value)),
    }
}

/// `key_index` finds the key, at its first place, exactly where it occurs.
pub proof fn key_index_is_first(fields: Seq<(Seq<char>, Json)>, key: Seq<char>)
    ensures
        match key_index(fields, key) {
            Some(i) => 0 <= i < fields.len() && fields[i].0 == key && forall|j: int|
                0 <= j < i ==> (#[trigger] fields[j]).0 != key,
            None => forall|j: int| 0 <= j < fields.len() ==> (#[trigger] fields[j]).0 != key,
        },
    decreases fields.len(),
{
    if fields.len() > 0 {
        key_index_is_first(fields.drop_last(), key);
        assert forall|j: int| 0 <= j < fields.len() - 1 implies fields[j]
            == fields.drop_last()[j] by {}
    }
}

/// Setting a field and reading it gives the value set.
pub proof fn field_set_is_read(fields: Seq<(Seq<char>, Json)>, key: Seq<char>, value: Json)
    ensures
        member(Json::Object(with_field(fields, key, value)), key) == Some(value),
{
    let after = with_field(fields, key, value);
    key_index_is_first(fields, key);
    key_index_is_first(after, key);
    match key_index(fields, key) {
        Some(i) => {
            assert(after[i].0 == key);
            if let Some(j) = key_index(after, key) {
                if j < i {
                    assert(after[j] == fields[j]);
                }
            }
        },
        None => {
            assert(after[fields.len() as int].0 == key);
            if let Some(j) = key_index(after, key) {
                if j < fields.len() {
                    assert(after[j] == fields[j]);
                }
            }
        },
    }
}

/// Setting a field leaves every other field as it was.
pub proof fn field_set_keeps_others(
    fields: Seq<(Seq<char>, Json)>,
    key: Seq<char>,
    value: Json,
    other: Seq<char>,
)
    requires
        other != key,
    ensures
        member(Json::Object(with_field(fields, key, value)), other) == member(
            Json::Object(fields),
            other,
        ),
{
    let after = with_field(fields, key, value);
    key_index_is_first(fields, key);
    key_index_is_first(fields, other);
    key_index_is_first(after, other);
    assert forall|j: int| 0 <= j < fields.len() implies #[trigger] after[j].0 == fields[j].0 && (
    fields[j].0 != key ==> after[j].1 == fields[j].1) by {}
    match (key_index(fields, other), key_index(after, other)) {
        (Some(i), Some(j)) => {
            assert(after[i].0 == other);
            assert(j < fields.len());
            assert(fields[j].0 == other);
            assert(i == j);
        },
        (Some(i), None) => {
            assert(after[i].0 == other);
        },
        (None, Some(j)) => {
            if j < fields.len() {
                assert(fields[j].0 == other);
            }
        },
        (None, None) => {},
    }
}

/// Setting a field keeps the keys distinct.
pub proof fn field_set_keeps_distinct(fields: Seq<(Seq<char>, Json)>, key: Seq<char>, value: Json)
    requires
        distinct_keys(fields),
    ensures
        distinct_keys(with_field(fields, key, value)),
{
    key_index_is_first(fields, key);
    let after = with_field(fields, key, value);
    assert forall|i: int, j: int|
        #![trigger after[i], after[j]]
        0 <= i < j < after.len() implies after[i].0 != after[j].0 by {
        assert(i < fields.len());
        assert(after[i].0 == fields[i].0);
        if j < fields.len() {
            assert(after[j].0 == fields[j].0);
        }
    }
}

/// Where `key` stands among the fields.
pub fn find_field(fields: &Fields, key: &str) -> (r: Option<usize>)
    ensures
        match r {
            Some(i) => key_index(field_views(fields@), key@) == Some(i as int) && i < fields@.len(),
            None => key_index(field_views(fields@), key@) is None,
        },
{
    let ghost views = field_views(fields@);
    let mut i: usize = 0;
    while i < fields.len()
        invariant
            i <= fields@.len(),
            views == field_views(fields@),
            forall|j: int| 0 <= j < i ==> (#[trigger] views[j]).0 != key@,
        decreases fields@.len() - i,
    {
        assert(views[i as int].0 == fields@[i as int].0@);
        if same(fields[i].0.as_str(), key) {
            proof {
                key_index_is_first(views, key@);
            }
            return Some(i);
        }
        i += 1;
    }
    proof {
        key_index_is_first(views, key@);
    }
    None
}

/// Puts `value` under `key`.
pub fn set_field(fields: &mut Fields, key: &str, value: Doc)
    ensures
        field_views(final(fields)@) == with_field(field_views(old(fields)@), key@, value@),
{
    match find_field(fields, key) {
        Some(i) => {
            fields.set(i, (owned(key), value));
        },
        None => {
            fields.push((owned(key), value));
        },
    }
    assert(field_views(fields@) =~= with_field(field_views(old(fields)@), key@, value@));
}

/// Appends a field.
pub fn put(fields: &mut Fields, key: &str, value: Doc)
    ensures
        field_views(final(fields)@) == field_views(old(fields)@).push((key@, value@)),
{
    fields.push((owned(key), value));
    assert(field_views(fields@) =~= field_views(old(fields)@).push((key@, value@)));
}

impl Doc {
    /// What stands under `key`, if this is an object that holds it.
    pub fn get(&self, key: &str) -> (r: Option<&Doc>)
        ensures
            match r {
                Some(d) => member(self@, key@) == Some(d@),
                None => member(self@, key@) is None,
            },
    {
        broadcast use doc_view_parts;

        match self {
            Doc::Object(fields) => match find_field(fields, key) {
                Some(i) => Some(&fields[i].1),
                None => None,
            },
            _ => None,
        }
    }

    /// The text, if this is one.
    pub fn as_str(&self) -> (r: Option<&str>)
        ensures
            match r {
                Some(s) => self@ == Json::Text(s@),
                None => !(self@ is Text),
            },
    {
        broadcast use doc_view_parts;

        match self {
            Doc::Text(s) => Some(s.as_str()),
            _ => None,
        }
    }

    /// The text under `key`, if a text stands there.
    pub fn get_str(&self, key: &str) -> (r: Option<&str>)
        ensures
            match r {
                Some(s) => member_text(self@, key@) == Some(s@),
                None => member_text(self@, key@) is None,
            },
    {
        match self.get(key) {
            Some(d) => d.as_str(),
            None => None,
        }
    }

    /// The integer, if this is one that fits 64 signed bits.
    pub fn as_i64(&self) -> (r: Option<i64>)
        ensures
            match r {
                Some(n) => self@ == Json::Int(n as int),
                None => self@ matches Json::Int(n) ==> n > i64::MAX,
            },
    {
        broadcast use doc_view_parts;

        match self {
            Doc::Num(Num::Pos(n)) => if *n <= 0x7fff_ffff_ffff_ffff {
                Some(*n as i64)
            } else {
                None
            },
            Doc::Num(Num::Neg(n)) => Some(*n),
            _ => None,
        }
    }
}

// ---------------------------------------------------------------------------
// Objects that read back
// ---------------------------------------------------------------------------

/// A field that may stand in an object that reads back from its text.
pub open spec fn readable_field(f: (Seq<char>, Json)) -> bool {
    &&& (f.0.len() > 0 ==> f.0[0] != '$')
    &&& unambiguous(f.1)
    &&& plain_keys(f.1)
    &&& shallow(f.1, 126)
    &&& exact_numbers(f.1)
}

/// An object reads back from its text where its keys are distinct and each field
/// may stand in such an object.
pub proof fn object_is_readable(fields: Seq<(Seq<char>, Json)>)
    requires
        distinct_keys(fields),
        forall|i: int| 0 <= i < fields.len() ==> readable_field(#[trigger] fields[i]),
    ensures
        readable(Json::Object(fields)),
{
    let doc = Json::Object(fields);
    assert(doc->Object_0 == fields);
    assert forall|i: int| 0 <= i < fields.len() implies {
        &&& unambiguous((#[trigger] fields[i]).1)
        &&& (fields[i].0.len() > 0 ==> fields[i].0[0] != '$')
        &&& plain_keys(fields[i].1)
        &&& shallow(fields[i].1, 126)
        &&& exact_numbers(fields[i].1)
    } by {
        assert(readable_field(fields[i]));
    }
}

/// The fields of an object that reads back may stand in one.
pub proof fn readable_object_fields(fields: Seq<(Seq<char>, Json)>)
    requires
        readable(Json::Object(fields)),
    ensures
        distinct_keys(fields),
        forall|i: int| 0 <= i < fields.len() ==> readable_field(#[trigger] fields[i]),
{
    let doc = Json::Object(fields);
    assert(doc->Object_0 == fields);
    assert forall|i: int| 0 <= i < fields.len() implies readable_field(#[trigger] fields[i]) by {
        assert(doc->Object_0[i] == fields[i]);
        assert(unambiguous(doc->Object_0[i].1));
        assert(plain_keys(doc->Object_0[i].1));
        assert(shallow(doc->Object_0[i].1, 126));
        assert(exact_numbers(doc->Object_0[i].1));
    }
}

/// An object is unambiguous exactly where its keys are distinct and what stands
/// under them is unambiguous.
pub proof fn unambiguous_object(fields: Seq<(Seq<char>, Json)>)
    ensures
        unambiguous(Json::Object(fields)) <==> distinct_keys(fields) && forall|i: int|
            0 <= i < fields.len() ==> unambiguous((#[trigger] fields[i]).1),
{
    let doc = Json::Object(fields);
    assert(doc->Object_0 == fields);
    if unambiguous(doc) {
        assert forall|i: int| 0 <= i < fields.len() implies unambiguous(
            (#[trigger] fields[i]).1,
        ) by {
            assert(unambiguous(doc->Object_0[i].1));
        }
    }
}

/// Setting an unambiguous field in an unambiguous object leaves it so.
pub proof fn field_set_keeps_unambiguous(
    fields: Seq<(Seq<char>, Json)>,
    key: Seq<char>,
    value: Json,
)
    requires
        unambiguous(Json::Object(fields)),
        unambiguous(value),
    ensures
        unambiguous(Json::Object(with_field(fields, key, value))),
{
    let after = with_field(fields, key, value);
    unambiguous_object(fields);
    unambiguous_object(after);
    key_index_is_first(fields, key);
    field_set_keeps_distinct(fields, key, value);
    assert forall|i: int| 0 <= i < after.len() implies unambiguous((#[trigger] after[i]).1) by {
        if i < fields.len() && after[i] != (key, value) {
            assert(after[i] == fields[i]);
        }
    }
}

/// Setting such a field in an object that reads back leaves it so.
pub proof fn field_set_keeps_readable(fields: Seq<(Seq<char>, Json)>, key: Seq<char>, value: Json)
    requires
        readable(Json::Object(fields)),
        readable_field((key, value)),
    ensures
        readable(Json::Object(with_field(fields, key, value))),
{
    let after = with_field(fields, key, value);
    readable_object_fields(fields);
    key_index_is_first(fields, key);
    field_set_keeps_distinct(fields, key, value);
    assert forall|i: int| 0 <= i < after.len() implies readable_field(#[trigger] after[i]) by {
        if i < fields.len() && after[i] != (key, value) {
            assert(after[i] == fields[i]);
        }
    }
    object_is_readable(after);
}

/// An object nests one level deeper than what stands in it.
pub proof fn shallow_object(fields: Seq<(Seq<char>, Json)>, depth: nat)
    requires
        depth > 0,
        forall|i: int|
            0 <= i < fields.len() ==> shallow((#[trigger] fields[i]).1, (depth - 1) as nat),
    ensures
        shallow(Json::Object(fields), depth),
{
    let doc = Json::Object(fields);
    assert(doc->Object_0 == fields);
}

} // verus!
