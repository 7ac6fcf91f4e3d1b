//! Deterministic identity for graph entities.
//!
//! The identifier of an entity, a type or an edge is computed from its
//! normalized name, so that the same fact, met again, lands on the same record.

use vstd::prelude::*;
use vstd::string::*;

use crate::pattern::{join, join_of, replace_char, replace_char_of};
use crate::text::{concat3, drawn_from, lowercase, str_views, to_lower, views};
use crate::uid::{uuid_v5, Uuid};

verus! {

/// The object-identifier namespace, `6ba7b812-9dad-11d1-80b4-00c04fd430c8`.
pub const NAMESPACE_OID: u128 = 0x6ba7b812_9dad_11d1_80b4_00c04fd430c8;

/// Spaces to underscores, apostrophes away.
pub open spec fn squashed(s: Seq<char>) -> Seq<char> {
    replace_char_of(replace_char_of(s, ' ', "_"@), '\'', ""@)
}

/// The normal form of a name: lower case, spaces to underscores, apostrophes
/// away.
pub open spec fn normal_form(s: Seq<char>) -> Seq<char> {
    squashed(lowercase(s))
}

/// The form in which a node's name is kept: lower case, apostrophes away.
pub open spec fn name_form(s: Seq<char>) -> Seq<char> {
    replace_char_of(lowercase(s), '\'', ""@)
}

/// The identifier of a name in the object-identifier namespace.
pub open spec fn oid_of(name: Seq<char>) -> u128 {
    uuid_v5(NAMESPACE_OID, vstd::utf8::encode_utf8(name))
}

/// The text that an identifier is computed from: the class, a colon, and the
/// normal forms of the values with bars between them.
pub open spec fn identity_text(class: Seq<char>, values: Seq<Seq<char>>) -> Seq<char> {
    class + ":"@ + join_of(values.map_values(|v: Seq<char>| normal_form(v)), "|"@)
}

/// The identifier of an item of a class with the given identifying values.
pub open spec fn id_of(class: Seq<char>, values: Seq<Seq<char>>) -> u128 {
    oid_of(identity_text(class, values))
}

pub open spec fn entity_id_of(name: Seq<char>) -> u128 {
    id_of("Entity"@, seq![name])
}

pub open spec fn entity_type_id_of(name: Seq<char>) -> u128 {
    id_of("EntityType"@, seq![name])
}

pub open spec fn edge_type_id_of(name: Seq<char>) -> u128 {
    id_of("EdgeType"@, seq![name])
}

/// The identifier of the edge `relationship` from `source` to `target`.
pub open spec fn edge_object_id_of(
    source: Seq<char>,
    relationship: Seq<char>,
    target: Seq<char>,
) -> u128 {
    oid_of(normal_form(source + relationship + target))
}

/// The identifier of the summary of the chunk `chunk`.
pub open spec fn text_summary_id_of(chunk: u128) -> u128 {
    uuid_v5(chunk, vstd::utf8::encode_utf8("TextSummary"@))
}

/// Spaces to underscores and apostrophes away, of a text already in lower case.
pub fn squash(lowered: &str) -> (r: String)
    ensures
        r@ == squashed(lowered@),
{
    let spaced = replace_char(lowered, ' ', "_");
    replace_char(spaced.as_str(), '\'', "")
}

/// Lower case, spaces to underscores, apostrophes stripped. What is normal stays
/// as it is, and names what the value names.
pub fn normalize(value: &str) -> (r: String)
    ensures
        r@ == normal_form(value@),
        normal_form(r@) == r@,
        entity_id_of(r@) == entity_id_of(value@),
        entity_type_id_of(r@) == entity_type_id_of(value@),
        edge_type_id_of(r@) == edge_type_id_of(value@),
{
    let lowered = to_lower(value);
    let r = squash(lowered.as_str());
    proof {
        squashing_draws(lowered@);
        assert(lowercase(r@) == r@);
        normal_form_is_clean(value@);
        nothing_to_replace(r@, ' ', "_"@);
        nothing_to_replace(r@, '\'', ""@);
        same_normal_form_same_id(r@, value@);
    }
    r
}

/// The version 5 identifier of `name` in the object-identifier namespace.
pub fn oid_uuid5(name: &str) -> (r: Uuid)
    ensures
        r.value == oid_of(name@),
{
    let namespace = Uuid { value: NAMESPACE_OID };
    Uuid::new_v5(&namespace, name.as_bytes())
}

/// The identifier of an item of `class` with the identifying `values`.
pub fn id_for(class: &str, values: &[&str]) -> (r: Uuid)
    ensures
        r.value == id_of(class@, str_views(values@)),
{
    let mut normal: Vec<String> = Vec::new();
    let mut i: usize = 0;
    while i < values.len()
        invariant
            i <= values@.len(),
            normal@.len() == i,
            forall|j: int| 0 <= j < i ==> (#[trigger] normal@[j])@ == normal_form(values@[j]@),
        decreases values@.len() - i,
    {
        normal.push(normalize(values[i]));
        i += 1;
    }
    let ghost given = str_views(values@);
    assert(views(normal@) =~= given.map_values(|v: Seq<char>| normal_form(v)));
    let joined = join(&normal, "|");
    let name = concat3(class, ":", joined.as_str());
    oid_uuid5(name.as_str())
}

/// The identifier of an item of `class` with one identifying value.
fn id_for_one(class: &str, value: &str) -> (r: Uuid)
    ensures
        r.value == id_of(class@, seq![value@]),
{
    let values: [&str; 1] = [value];
    assert(str_views(values@) =~= seq![value@]);
    id_for(class, &values)
}

pub fn entity_id(name: &str) -> (r: Uuid)
    ensures
        r.value == entity_id_of(name@),
{
    id_for_one("Entity", name)
}

pub fn entity_type_id(name: &str) -> (r: Uuid)
    ensures
        r.value == entity_type_id_of(name@),
{
    id_for_one("EntityType", name)
}

pub fn edge_type_id(relationship_name: &str) -> (r: Uuid)
    ensures
        r.value == edge_type_id_of(relationship_name@),
{
    id_for_one("EdgeType", relationship_name)
}

/// The identifier of one edge (source, relationship, target).
pub fn edge_object_id(source_id: &str, relationship_name: &str, target_id: &str) -> (r: Uuid)
    ensures
        r.value == edge_object_id_of(source_id@, relationship_name@, target_id@),
{
    let identifier = concat3(source_id, relationship_name, target_id);
    let normal = normalize(identifier.as_str());
    oid_uuid5(normal.as_str())
}

/// Lower case, apostrophes stripped; spaces stay.
pub fn node_name(name: &str) -> (r: String)
    ensures
        r@ == name_form(name@),
{
    let lowered = to_lower(name);
    replace_char(lowered.as_str(), '\'', "")
}

/// The form in which a relationship's name is kept, the normal form.
pub fn edge_name(name: &str) -> (r: String)
    ensures
        r@ == normal_form(name@),
{
    normalize(name)
}

/// The identifier of the summary of a chunk.
pub fn text_summary_id(chunk_id: Uuid) -> (r: Uuid)
    ensures
        r.value == text_summary_id_of(chunk_id.value),
{
    Uuid::new_v5(&chunk_id, "TextSummary".as_bytes())
}

// ---------------------------------------------------------------------------
// Laws
// ---------------------------------------------------------------------------

proof fn replaced_char_is_gone(s: Seq<char>, c: char, with: Seq<char>, x: char)
    requires
        !with.contains(x),
        x == c || !s.contains(x),
    ensures
        !replace_char_of(s, c, with).contains(x),
    decreases s.len(),
{
    if s.len() > 0 {
        assert forall|i: int| 0 <= i < s.drop_last().len() implies s.drop_last()[i] == s[i] by {}
        assert(s.last() == s[s.len() - 1]);
        replaced_char_is_gone(s.drop_last(), c, with, x);
        let head = replace_char_of(s.drop_last(), c, with);
        let tail = if s.last() == c {
            with
        } else {
            seq![s.last()]
        };
        assert(!tail.contains(x));
        let all = head + tail;
        assert forall|i: int| 0 <= i < all.len() implies all[i] != x by {
            if i < head.len() {
                assert(all[i] == head[i]);
            } else {
                assert(all[i] == tail[i - head.len()]);
            }
        }
    }
}

proof fn nothing_to_replace(s: Seq<char>, c: char, with: Seq<char>)
    requires
        !s.contains(c),
    ensures
        replace_char_of(s, c, with) == s,
    decreases s.len(),
{
    if s.len() > 0 {
        let head = s.drop_last();
        assert(s[s.len() - 1] == s.last());
        assert(!head.contains(c)) by {
            assert forall|i: int| 0 <= i < head.len() implies head[i] != c by {
                assert(head[i] == s[i]);
            }
        }
        nothing_to_replace(head, c, with);
        assert(head + seq![s.last()] =~= s);
    }
}

proof fn replacing_draws(s: Seq<char>, c: char, with: Seq<char>, source: Seq<char>)
    requires
        drawn_from(s, source),
        drawn_from(with, source),
    ensures
        drawn_from(replace_char_of(s, c, with), source),
    decreases s.len(),
{
    if s.len() > 0 {
        let head = s.drop_last();
        assert(s[s.len() - 1] == s.last());
        assert forall|i: int| 0 <= i < head.len() implies source.contains(#[trigger] head[i]) || (
        head[i] <= '\u{7f}' && !('A' <= head[i] <= 'Z')) by {
            assert(head[i] == s[i]);
        }
        replacing_draws(head, c, with, source);
        let front = replace_char_of(head, c, with);
        let tail = if s.last() == c {
            with
        } else {
            seq![s.last()]
        };
        let all = front + tail;
        assert forall|i: int| 0 <= i < all.len() implies source.contains(#[trigger] all[i]) || (
        all[i] <= '\u{7f}' && !('A' <= all[i] <= 'Z')) by {
            if i < front.len() {
                assert(all[i] == front[i]);
            } else {
                assert(all[i] == tail[i - front.len()]);
            }
        }
    }
}

proof fn squashing_draws(s: Seq<char>)
    ensures
        drawn_from(squashed(s), s),
{
    reveal_strlit("_");
    reveal_strlit("");
    assert forall|i: int| 0 <= i < s.len() implies s.contains(#[trigger] s[i]) by {}
    replacing_draws(s, ' ', "_"@, s);
    replacing_draws(replace_char_of(s, ' ', "_"@), '\'', ""@, s);
}

/// A normal form holds no space and no apostrophe.
pub proof fn normal_form_is_clean(s: Seq<char>)
    ensures
        !normal_form(s).contains(' '),
        !normal_form(s).contains('\''),
{
    reveal_strlit("_");
    reveal_strlit("");
    let lowered = lowercase(s);
    let spaced = replace_char_of(lowered, ' ', "_"@);
    replaced_char_is_gone(lowered, ' ', "_"@, ' ');
    replaced_char_is_gone(spaced, '\'', ""@, ' ');
    replaced_char_is_gone(spaced, '\'', ""@, '\'');
}

/// Names with the same normal form name the same entity, the same type and the
/// same relationship.
pub proof fn same_normal_form_same_id(a: Seq<char>, b: Seq<char>)
    requires
        normal_form(a) == normal_form(b),
    ensures
        entity_id_of(a) == entity_id_of(b),
        entity_type_id_of(a) == entity_type_id_of(b),
        edge_type_id_of(a) == edge_type_id_of(b),
{
    assert(seq![a].map_values(|v: Seq<char>| normal_form(v)) =~= seq![b].map_values(
        |v: Seq<char>| normal_form(v),
    ));
}

} // verus!
