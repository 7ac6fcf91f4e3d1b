//! Data points: graph nodes with everything needed to store and embed them, and
//! the properties of the edges between them.
//!
//! The order of the properties is part of the stored form.

use vstd::prelude::*;
use vstd::string::*;

use crate::calendar::{utc_string, utc_text};
use crate::clock::{millis_in, now_ms, now_parts, secs_in};
use crate::ingest::ids::{edge_object_id, edge_object_id_of};
use crate::json::{
    copy_doc, distinct_keys, doc_text, doc_view_parts, doc_views, exact_numbers, field_set_is_read,
    field_set_keeps_others, field_set_keeps_readable, field_set_keeps_unambiguous, field_views,
    half, half_json, json_text, key_index_is_first, member, object_is_readable, parsed_json,
    parsed_number, plain_keys, put, readable, readable_field, set_field, shallow, shallow_object,
    unambiguous, unambiguous_object, with_field, Doc, Fields, Json, Num,
};
use crate::lists::{filter_ends, filter_step};
use crate::number::{pad_int, pad_text};
use crate::pattern::{replace_char, replace_char_of};
use crate::storage::graph::{GraphNode, NodeRow};
use crate::storage::refs::{list_text, provenance_list};
use crate::text::{concat2, concat3, copy_opt, opt_view, owned, str_views, views};
use crate::uid::{uuid_text, Uuid};

verus! {

// ---------------------------------------------------------------------------
// Times
// ---------------------------------------------------------------------------

/// `YYYY-MM-DDTHH:MM:SS.ffffff` of a number of milliseconds since the epoch.
pub open spec fn iso_text(ms: int) -> Seq<char> {
    utc_text(ms / 1000, 'T') + "."@ + pad_int(ms % 1000 * 1000, 6)
}

/// `YYYY-MM-DD HH:MM:SS` from Unix seconds, UTC.
pub fn format_utc_secs(secs: i64) -> (r: String)
    ensures
        r@ == utc_text(secs as int, ' '),
{
    utc_string(secs, ' ')
}

/// ISO-8601 with microseconds from milliseconds since the epoch, UTC.
pub fn iso_from_ms(ms: i64) -> (r: String)
    ensures
        r@ == iso_text(ms as int),
{
    let secs: i64 = if ms >= 0 {
        ms / 1000
    } else {
        -1 - (-(ms + 1)) / 1000
    };
    assert(secs == ms as int / 1000);
    let rest: i64 = if ms >= 0 {
        ms % 1000
    } else {
        999 - (-(ms + 1)) % 1000
    };
    assert(rest == ms as int % 1000);
    let base = utc_string(secs, 'T');
    let micros = pad_text(rest * 1000, 6);
    concat3(base.as_str(), ".", micros.as_str())
}

/// The current second as `YYYY-MM-DD HH:MM:SS`, UTC.
pub fn chrono_fmt_now() -> (r: String)
    ensures
        exists|elapsed: Option<core::time::Duration>|
            r@ == utc_text(#[trigger] secs_in(elapsed) as int, ' '),
{
    let (secs, _) = now_parts();
    format_utc_secs(secs)
}

// ---------------------------------------------------------------------------
// Data points
// ---------------------------------------------------------------------------

/// One graph node plus everything needed to store and embed it.
#[derive(Debug)]
pub struct Datapoint {
    pub id: Uuid,
    /// The name, which is not among the properties.
    pub name: Option<String>,
    pub type_: String,
    /// All properties, in order.
    pub properties: Fields,
    /// Which properties are embedded.
    pub index_fields: Vec<String>,
    /// The text to embed.
    pub embeddable_text: String,
}

/// What a [`Datapoint`] holds.
pub struct DatapointRow {
    pub id: u128,
    pub name: Option<Seq<char>>,
    pub type_: Seq<char>,
    pub properties: Seq<(Seq<char>, Json)>,
    pub index_fields: Seq<Seq<char>>,
    pub embeddable_text: Seq<char>,
}

impl Datapoint {
    pub open spec fn view(&self) -> DatapointRow {
        DatapointRow {
            id: self.id.value,
            name: opt_view(self.name),
            type_: self.type_@,
            properties: field_views(self.properties@),
            index_fields: views(self.index_fields@),
            embeddable_text: self.embeddable_text@,
        }
    }

    /// No property occurs twice, nor does a key anywhere in one, and the time of
    /// creation is there.
    pub open spec fn valid(&self) -> bool {
        &&& unambiguous(Json::Object(self@.properties))
        &&& member(Json::Object(self@.properties), "created_at"@) is Some
    }
}

/// A text, or null where there is none.
pub open spec fn text_or_null(o: Option<Seq<char>>) -> Json {
    match o {
        Some(s) => Json::Text(s),
        None => Json::Null,
    }
}

/// A list of texts.
pub open spec fn text_list(items: Seq<Seq<char>>) -> Json {
    Json::List(items.map_values(|s: Seq<char>| Json::Text(s)))
}

/// The properties that every data point has, in order.
pub open spec fn base_fields(
    ts: int,
    rank: int,
    index_fields: Seq<Seq<char>>,
    source_task: Seq<char>,
    source_content_hash: Option<Seq<char>>,
    source_node_set: Option<Seq<char>>,
) -> Seq<(Seq<char>, Json)> {
    seq![
        ("created_at"@, Json::Int(ts)),
        ("updated_at"@, Json::Int(ts)),
        ("ontology_valid"@, Json::Bool(false)),
        ("ontology_uri"@, Json::Null),
        ("version"@, Json::Int(1)),
        ("topological_rank"@, Json::Int(rank)),
        ("valid_to"@, Json::Null),
        ("metadata"@, Json::Object(seq![("index_fields"@, text_list(index_fields))])),
        ("belongs_to_set"@, Json::Null),
        ("source_pipeline"@, Json::Text("cognify_pipeline"@)),
        ("source_task"@, Json::Text(source_task)),
        ("source_node_set"@, text_or_null(source_node_set)),
        ("source_user"@, Json::Null),
        ("source_content_hash"@, text_or_null(source_content_hash)),
        ("feedback_weight"@, half_json()),
        ("importance_weight"@, half_json()),
    ]
}

/// The fields with each of `extras` set, one after the other.
pub open spec fn set_all(
    fields: Seq<(Seq<char>, Json)>,
    extras: Seq<(Seq<char>, Json)>,
) -> Seq<(Seq<char>, Json)>
    decreases extras.len(),
{
    if extras.len() == 0 {
        fields
    } else {
        with_field(set_all(fields, extras.drop_last()), extras.last().0, extras.last().1)
    }
}

/// The views of extra fields.
pub open spec fn extra_views(extras: Seq<(&str, Doc)>) -> Seq<(Seq<char>, Json)> {
    extras.map_values(|e: (&str, Doc)| (e.0@, e.1@))
}

/// An integer as a document.
pub fn int_doc(n: i64) -> (r: Doc)
    ensures
        r@ == Json::Int(n as int),
{
    if n < 0 {
        Doc::Num(Num::Neg(n))
    } else {
        Doc::Num(Num::Pos(n as u64))
    }
}

/// A text as a document.
pub fn text_doc(s: &str) -> (r: Doc)
    ensures
        r@ == Json::Text(s@),
{
    Doc::Text(owned(s))
}

/// An optional text as a document.
pub fn opt_doc(o: &Option<String>) -> (r: Doc)
    ensures
        r@ == text_or_null(opt_view(*o)),
{
    match o {
        Some(s) => Doc::Text(owned(s.as_str())),
        None => Doc::Null,
    }
}

/// `{ "index_fields": [..] }`.
fn metadata_doc(index_fields: &[&str]) -> (r: Doc)
    ensures
        r@ == Json::Object(
            seq![("index_fields"@, text_list(str_views(index_fields@)))],
        ),
{
    broadcast use doc_view_parts;

    let mut items: Vec<Doc> = Vec::new();
    let mut i: usize = 0;
    while i < index_fields.len()
        invariant
            i <= index_fields@.len(),
            items@.len() == i,
            forall|j: int| 0 <= j < i ==> (#[trigger] items@[j])@ == Json::Text(index_fields@[j]@),
        decreases index_fields@.len() - i,
    {
        items.push(text_doc(index_fields[i]));
        i += 1;
    }
    let ghost names = str_views(index_fields@);
    assert(doc_views(items@) =~= names.map_values(|s: Seq<char>| Json::Text(s)));
    let mut fields: Fields = Vec::new();
    put(&mut fields, "index_fields", Doc::List(items));
    assert(field_views(fields@) =~= seq![("index_fields"@, text_list(names))]);
    Doc::Object(fields)
}

/// The data point with the given fields, created at `ts`.
pub open spec fn datapoint_of(
    ts: int,
    id: u128,
    type_: Seq<char>,
    name: Option<Seq<char>>,
    rank: int,
    index_fields: Seq<Seq<char>>,
    embeddable: Seq<char>,
    extras: Seq<(Seq<char>, Json)>,
    source_task: Seq<char>,
    source_content_hash: Option<Seq<char>>,
    source_node_set: Option<Seq<char>>,
) -> DatapointRow {
    DatapointRow {
        id,
        name,
        type_,
        properties: set_all(
            base_fields(ts, rank, index_fields, source_task, source_content_hash, source_node_set),
            extras,
        ),
        index_fields,
        embeddable_text: embeddable,
    }
}

/// The base properties, as an executable object.
fn base_object(
    ts: i64,
    rank: i64,
    index_fields: &[&str],
    source_task: &str,
    source_content_hash: &Option<String>,
    source_node_set: &Option<String>,
) -> (p: Fields)
    ensures
        field_views(p@) == base_fields(
            ts as int,
            rank as int,
            str_views(index_fields@),
            source_task@,
            opt_view(*source_content_hash),
            opt_view(*source_node_set),
        ),
        parsed_number("0.5"@) is Some,
{
    broadcast use doc_view_parts;

    let mut p: Fields = Vec::new();
    put(&mut p, "created_at", int_doc(ts));
    put(&mut p, "updated_at", int_doc(ts));
    put(&mut p, "ontology_valid", Doc::Bool(false));
    put(&mut p, "ontology_uri", Doc::Null);
    put(&mut p, "version", int_doc(1));
    put(&mut p, "topological_rank", int_doc(rank));
    put(&mut p, "valid_to", Doc::Null);
    put(&mut p, "metadata", metadata_doc(index_fields));
    put(&mut p, "belongs_to_set", Doc::Null);
    put(&mut p, "source_pipeline", text_doc("cognify_pipeline"));
    put(&mut p, "source_task", text_doc(source_task));
    put(&mut p, "source_node_set", opt_doc(source_node_set));
    put(&mut p, "source_user", Doc::Null);
    put(&mut p, "source_content_hash", opt_doc(source_content_hash));
    put(&mut p, "feedback_weight", half());
    put(&mut p, "importance_weight", half());
    assert(field_views(p@) =~= base_fields(
        ts as int,
        rank as int,
        str_views(index_fields@),
        source_task@,
        opt_view(*source_content_hash),
        opt_view(*source_node_set),
    ));
    p
}

/// A number that tells short texts apart by their length and two characters.
spec fn key_mark(key: Seq<char>) -> int {
    key.len() * 1_000_000 + (if key.len() > 0 {
        key[0] as int * 1000
    } else {
        0
    }) + (if key.len() > 7 {
        key[7] as int
    } else {
        0
    })
}

/// No base property occurs twice.
pub proof fn base_keys_are_distinct(
    ts: int,
    rank: int,
    index_fields: Seq<Seq<char>>,
    source_task: Seq<char>,
    source_content_hash: Option<Seq<char>>,
    source_node_set: Option<Seq<char>>,
)
    ensures
        distinct_keys(
            base_fields(ts, rank, index_fields, source_task, source_content_hash, source_node_set),
        ),
{
    reveal_strlit("created_at");
    reveal_strlit("updated_at");
    reveal_strlit("ontology_valid");
    reveal_strlit("ontology_uri");
    reveal_strlit("version");
    reveal_strlit("topological_rank");
    reveal_strlit("valid_to");
    reveal_strlit("metadata");
    reveal_strlit("belongs_to_set");
    reveal_strlit("source_pipeline");
    reveal_strlit("source_task");
    reveal_strlit("source_node_set");
    reveal_strlit("source_user");
    reveal_strlit("source_content_hash");
    reveal_strlit("feedback_weight");
    reveal_strlit("importance_weight");
    let f = base_fields(
        ts,
        rank,
        index_fields,
        source_task,
        source_content_hash,
        source_node_set,
    );
    // What tells the keys apart: their length, and where that is the same, their first and
    // eighth characters.
    assert(key_mark(f[0].0) == 10099095);
    assert(key_mark(f[1].0) == 10117095);
    assert(key_mark(f[2].0) == 14111121);
    assert(key_mark(f[3].0) == 12111121);
    assert(key_mark(f[4].0) == 7118000);
    assert(key_mark(f[5].0) == 16116105);
    assert(key_mark(f[6].0) == 8118111);
    assert(key_mark(f[7].0) == 8109097);
    assert(key_mark(f[8].0) == 14098095);
    assert(key_mark(f[9].0) == 15115112);
    assert(key_mark(f[10].0) == 11115116);
    assert(key_mark(f[11].0) == 15115110);
    assert(key_mark(f[12].0) == 11115117);
    assert(key_mark(f[13].0) == 19115099);
    assert(key_mark(f[14].0) == 15102107);
    assert(key_mark(f[15].0) == 17105110);
    assert forall|i: int, j: int|
        #![trigger f[i], f[j]]
        0 <= i < j < f.len() implies f[i].0 != f[j].0 by {
        assert(key_mark(f[i].0) != key_mark(f[j].0));
    }
}

/// The base properties read back from their text, where the time and the rank
/// fit 64 bits.
pub proof fn base_is_readable(
    ts: i64,
    rank: i64,
    index_fields: Seq<Seq<char>>,
    source_task: Seq<char>,
    source_content_hash: Option<Seq<char>>,
    source_node_set: Option<Seq<char>>,
)
    requires
        parsed_number("0.5"@) is Some,
    ensures
        readable(
            Json::Object(
                base_fields(
                    ts as int,
                    rank as int,
                    index_fields,
                    source_task,
                    source_content_hash,
                    source_node_set,
                ),
            ),
        ),
{
    let f = base_fields(
        ts as int,
        rank as int,
        index_fields,
        source_task,
        source_content_hash,
        source_node_set,
    );
    base_keys_are_distinct(
        ts as int,
        rank as int,
        index_fields,
        source_task,
        source_content_hash,
        source_node_set,
    );
    let list = text_list(index_fields);
    reveal_strlit("index_fields");
    assert forall|i: int| 0 <= i < list->List_0.len() implies {
        &&& unambiguous(#[trigger] list->List_0[i])
        &&& plain_keys(list->List_0[i])
        &&& shallow(list->List_0[i], 124)
        &&& exact_numbers(list->List_0[i])
    } by {}
    assert(shallow(list, 125));
    assert(shallow(list, 126)) by {
        assert forall|i: int| 0 <= i < list->List_0.len() implies shallow(
            #[trigger] list->List_0[i],
            125,
        ) by {}
    }
    let meta_fields = seq![("index_fields"@, list)];
    let meta = Json::Object(meta_fields);
    assert(meta->Object_0[0] == ("index_fields"@, list));
    assert(readable_field(meta_fields[0]));
    object_is_readable(meta_fields);
    shallow_object(meta_fields, 126);
    reveal_strlit("created_at");
    reveal_strlit("updated_at");
    reveal_strlit("ontology_valid");
    reveal_strlit("ontology_uri");
    reveal_strlit("version");
    reveal_strlit("topological_rank");
    reveal_strlit("valid_to");
    reveal_strlit("metadata");
    reveal_strlit("belongs_to_set");
    reveal_strlit("source_pipeline");
    reveal_strlit("source_task");
    reveal_strlit("source_node_set");
    reveal_strlit("source_user");
    reveal_strlit("source_content_hash");
    reveal_strlit("feedback_weight");
    reveal_strlit("importance_weight");
    assert forall|i: int| 0 <= i < f.len() implies readable_field(#[trigger] f[i]) by {
        assert(f[7].1 == meta);
    }
    object_is_readable(f);
}

/// Setting unambiguous fields in an unambiguous object leaves it so.
pub proof fn set_all_keeps_unambiguous(
    fields: Seq<(Seq<char>, Json)>,
    extras: Seq<(Seq<char>, Json)>,
)
    requires
        unambiguous(Json::Object(fields)),
        forall|i: int| 0 <= i < extras.len() ==> unambiguous((#[trigger] extras[i]).1),
    ensures
        unambiguous(Json::Object(set_all(fields, extras))),
    decreases extras.len(),
{
    if extras.len() > 0 {
        let head = extras.drop_last();
        assert forall|i: int| 0 <= i < head.len() implies unambiguous((#[trigger] head[i]).1) by {
            assert(head[i] == extras[i]);
        }
        set_all_keeps_unambiguous(fields, head);
        assert(unambiguous(extras[extras.len() - 1].1));
        field_set_keeps_unambiguous(set_all(fields, head), extras.last().0, extras.last().1);
    }
}

/// Setting fields that read back in an object that does leaves it so.
pub proof fn set_all_keeps_readable(
    fields: Seq<(Seq<char>, Json)>,
    extras: Seq<(Seq<char>, Json)>,
)
    requires
        readable(Json::Object(fields)),
        forall|i: int| 0 <= i < extras.len() ==> readable_field(#[trigger] extras[i]),
    ensures
        readable(Json::Object(set_all(fields, extras))),
    decreases extras.len(),
{
    if extras.len() > 0 {
        let head = extras.drop_last();
        assert forall|i: int| 0 <= i < head.len() implies readable_field(#[trigger] head[i]) by {
            assert(head[i] == extras[i]);
        }
        set_all_keeps_readable(fields, head);
        assert(readable_field(extras[extras.len() - 1]));
        field_set_keeps_readable(set_all(fields, head), extras.last().0, extras.last().1);
    }
}

/// Setting other fields leaves a field as it was.
pub proof fn set_all_keeps_others(
    fields: Seq<(Seq<char>, Json)>,
    extras: Seq<(Seq<char>, Json)>,
    key: Seq<char>,
)
    requires
        forall|i: int| 0 <= i < extras.len() ==> (#[trigger] extras[i]).0 != key,
    ensures
        member(Json::Object(set_all(fields, extras)), key) == member(Json::Object(fields), key),
    decreases extras.len(),
{
    if extras.len() > 0 {
        let head = extras.drop_last();
        assert forall|i: int| 0 <= i < head.len() implies (#[trigger] head[i]).0 != key by {
            assert(head[i] == extras[i]);
        }
        set_all_keeps_others(fields, head, key);
        assert(extras[extras.len() - 1].0 != key);
        field_set_keeps_others(set_all(fields, head), extras.last().0, extras.last().1, key);
    }
}

/// Setting fields takes none away.
pub proof fn set_all_keeps_presence(
    fields: Seq<(Seq<char>, Json)>,
    extras: Seq<(Seq<char>, Json)>,
    key: Seq<char>,
)
    requires
        member(Json::Object(fields), key) is Some,
    ensures
        member(Json::Object(set_all(fields, extras)), key) is Some,
    decreases extras.len(),
{
    if extras.len() > 0 {
        let head = extras.drop_last();
        let before = set_all(fields, head);
        set_all_keeps_presence(fields, head, key);
        if extras.last().0 == key {
            field_set_is_read(before, key, extras.last().1);
        } else {
            field_set_keeps_others(before, extras.last().0, extras.last().1, key);
        }
    }
}

/// A data point created at `ts`: the base properties, then `extras`.
pub fn datapoint_at(
    ts: i64,
    id: Uuid,
    type_: &str,
    name: Option<String>,
    rank: i64,
    index_fields: &[&str],
    embeddable: String,
    extras: Vec<(&str, Doc)>,
    source_task: &str,
    source_content_hash: Option<String>,
    source_node_set: Option<String>,
) -> (r: Datapoint)
    requires
        forall|i: int| 0 <= i < extras@.len() ==> unambiguous((#[trigger] extras@[i]).1@),
    ensures
        r@ == datapoint_of(
            ts as int,
            id.value,
            type_@,
            opt_view(name),
            rank as int,
            str_views(index_fields@),
            embeddable@,
            extra_views(extras@),
            source_task@,
            opt_view(source_content_hash),
            opt_view(source_node_set),
        ),
        r.valid(),
        parsed_number("0.5"@) is Some,
{
    let ghost names = str_views(index_fields@);
    let ghost base = base_fields(
        ts as int,
        rank as int,
        names,
        source_task@,
        opt_view(source_content_hash),
        opt_view(source_node_set),
    );
    let mut p = base_object(
        ts,
        rank,
        index_fields,
        source_task,
        &source_content_hash,
        &source_node_set,
    );
    let ghost given = extras@;
    let ghost more = extra_views(given);
    assert(more.take(0) =~= Seq::empty());
    for extra in it: extras
        invariant
            it.seq() == given,
            more == extra_views(given),
            field_views(p@) == set_all(base, more.take(it.index() as int)),
    {
        let ghost i = it.index() as int;
        assert(more.take(i + 1).drop_last() =~= more.take(i));
        assert(more.take(i + 1).last() == (extra.0@, extra.1@));
        set_field(&mut p, extra.0, extra.1);
    }
    assert(more.take(more.len() as int) =~= more);
    let mut fields: Vec<String> = Vec::new();
    let mut k: usize = 0;
    while k < index_fields.len()
        invariant
            k <= index_fields@.len(),
            fields@.len() == k,
            forall|j: int| 0 <= j < k ==> (#[trigger] fields@[j])@ == index_fields@[j]@,
        decreases index_fields@.len() - k,
    {
        fields.push(owned(index_fields[k]));
        k += 1;
    }
    assert(views(fields@) =~= names);
    proof {
        base_is_unambiguous(
            ts as int,
            rank as int,
            names,
            source_task@,
            opt_view(source_content_hash),
            opt_view(source_node_set),
        );
        assert forall|i: int| 0 <= i < more.len() implies unambiguous((#[trigger] more[i]).1) by {
            assert(more[i] == (given[i].0@, given[i].1@));
        }
        set_all_keeps_unambiguous(base, more);
        key_index_is_first(base, "created_at"@);
        assert(base[0].0 == "created_at"@);
        set_all_keeps_presence(base, more, "created_at"@);
    }
    Datapoint {
        id,
        name,
        type_: owned(type_),
        properties: p,
        index_fields: fields,
        embeddable_text: embeddable,
    }
}

/// The base properties are unambiguous.
pub proof fn base_is_unambiguous(
    ts: int,
    rank: int,
    index_fields: Seq<Seq<char>>,
    source_task: Seq<char>,
    source_content_hash: Option<Seq<char>>,
    source_node_set: Option<Seq<char>>,
)
    ensures
        unambiguous(
            Json::Object(
                base_fields(
                    ts,
                    rank,
                    index_fields,
                    source_task,
                    source_content_hash,
                    source_node_set,
                ),
            ),
        ),
{
    let f = base_fields(
        ts,
        rank,
        index_fields,
        source_task,
        source_content_hash,
        source_node_set,
    );
    base_keys_are_distinct(
        ts,
        rank,
        index_fields,
        source_task,
        source_content_hash,
        source_node_set,
    );
    let list = text_list(index_fields);
    assert forall|i: int| 0 <= i < list->List_0.len() implies unambiguous(
        #[trigger] list->List_0[i],
    ) by {}
    assert(unambiguous(list));
    let meta_fields = seq![("index_fields"@, list)];
    unambiguous_object(meta_fields);
    assert(f[7].1 == Json::Object(meta_fields));
    unambiguous_object(f);
}

/// A data point created now.
pub fn datapoint(
    id: Uuid,
    type_: &str,
    name: Option<String>,
    rank: i64,
    index_fields: &[&str],
    embeddable: String,
    extras: Vec<(&str, Doc)>,
    source_task: &str,
    source_content_hash: Option<String>,
    source_node_set: Option<String>,
) -> (r: Datapoint)
    requires
        forall|i: int| 0 <= i < extras@.len() ==> unambiguous((#[trigger] extras@[i]).1@),
    ensures
        exists|elapsed: Option<core::time::Duration>|
            r@ == datapoint_of(
                #[trigger] millis_in(elapsed) as int,
                id.value,
                type_@,
                opt_view(name),
                rank as int,
                str_views(index_fields@),
                embeddable@,
                extra_views(extras@),
                source_task@,
                opt_view(source_content_hash),
                opt_view(source_node_set),
            ),
        r.valid(),
{
    datapoint_at(
        now_ms(),
        id,
        type_,
        name,
        rank,
        index_fields,
        embeddable,
        extras,
        source_task,
        source_content_hash,
        source_node_set,
    )
}

// ---------------------------------------------------------------------------
// Graph rows
// ---------------------------------------------------------------------------

/// The provenance entry of one data item in a dataset.
pub open spec fn source_ref_of(dataset_id: Seq<char>, data_id: Seq<char>) -> Seq<char> {
    "source_ref:v1:"@ + dataset_id + ":"@ + data_id
}

/// The provenance entry of one run over a data item.
pub open spec fn run_ref_of(
    run_id: Seq<char>,
    dataset_id: Seq<char>,
    data_id: Seq<char>,
) -> Seq<char> {
    "source_run_ref:v1:"@ + run_id + ":"@ + source_ref_of(dataset_id, data_id)
}

/// An identifier without its dashes.
pub open spec fn no_dashes(id: Seq<char>) -> Seq<char> {
    replace_char_of(id, '-', ""@)
}

/// The integer under `key`, or zero where none that fits 64 bits stands there.
pub open spec fn int_member(doc: Json, key: Seq<char>) -> int {
    match member(doc, key) {
        Some(Json::Int(n)) if n <= i64::MAX => n,
        _ => 0,
    }
}

/// The graph row of a data point of one run over one data item.
pub open spec fn node_row_of(
    dp: DatapointRow,
    dataset_id: Seq<char>,
    data_id: Seq<char>,
    run_id: Seq<char>,
) -> NodeRow {
    let doc = Json::Object(dp.properties);
    let iso = iso_text(int_member(doc, "created_at"@));
    NodeRow {
        id: uuid_text(dp.id),
        name: dp.name,
        type_: Some(dp.type_),
        created_at: Some(iso),
        updated_at: Some(iso),
        properties: Some(json_text(doc)),
        source_ref_keys: Some(list_text(seq![source_ref_of(dataset_id, data_id)])),
        source_dataset_ids: Some(list_text(seq![no_dashes(dataset_id)])),
        source_run_ids: Some(list_text(seq![no_dashes(run_id)])),
        source_run_refs: Some(list_text(seq![run_ref_of(run_id, dataset_id, data_id)])),
    }
}

/// The provenance entry of one data item in a dataset.
pub fn source_ref(dataset_id: &str, data_id: &str) -> (r: String)
    ensures
        r@ == source_ref_of(dataset_id@, data_id@),
{
    let head = concat3("source_ref:v1:", dataset_id, ":");
    concat2(head.as_str(), data_id)
}

/// The provenance entry of one run over a data item.
pub fn run_ref(run_id: &str, dataset_id: &str, data_id: &str) -> (r: String)
    ensures
        r@ == run_ref_of(run_id@, dataset_id@, data_id@),
{
    let head = concat3("source_run_ref:v1:", run_id, ":");
    let item = source_ref(dataset_id, data_id);
    concat2(head.as_str(), item.as_str())
}

/// A provenance list with one entry.
pub fn sole_list(entry: String) -> (r: String)
    ensures
        r@ == list_text(seq![entry@]),
{
    let ghost text = entry@;
    let mut values: Vec<String> = Vec::new();
    values.push(entry);
    assert(views(values@) =~= seq![text]);
    provenance_list(&values)
}

/// A copy of an object's fields.
pub fn copy_fields(fields: &Fields) -> (r: Fields)
    ensures
        field_views(r@) == field_views(fields@),
{
    let mut out: Fields = Vec::new();
    let mut i: usize = 0;
    while i < fields.len()
        invariant
            i <= fields@.len(),
            out@.len() == i,
            forall|j: int|
                0 <= j < i ==> (#[trigger] out@[j]).0@ == fields@[j].0@ && out@[j].1@
                    == fields@[j].1@,
        decreases fields@.len() - i,
    {
        out.push((owned(fields[i].0.as_str()), copy_doc(&fields[i].1)));
        i += 1;
    }
    assert(field_views(out@) =~= field_views(fields@));
    out
}

impl Datapoint {
    /// The properties as one document.
    pub fn payload(&self) -> (r: Doc)
        ensures
            r@ == Json::Object(self@.properties),
    {
        broadcast use doc_view_parts;

        Doc::Object(copy_fields(&self.properties))
    }
}

/// The graph row of a data point.
pub fn to_graph_node(dp: &Datapoint, dataset_id: &str, data_id: &str, run_id: &str) -> (r: GraphNode)
    requires
        dp.valid(),
    ensures
        r@ == node_row_of(dp@, dataset_id@, data_id@, run_id@),
        readable(Json::Object(dp@.properties)) ==> parsed_json(r@.properties->0) == Some(
            Json::Object(dp@.properties),
        ),
{
    let doc = dp.payload();
    let created_ms: i64 = match doc.get("created_at") {
        Some(d) => match d.as_i64() {
            Some(n) => n,
            None => 0,
        },
        None => 0,
    };
    let iso = iso_from_ms(created_ms);
    let again = owned(iso.as_str());
    GraphNode {
        id: dp.id.to_string(),
        name: copy_opt(&dp.name),
        type_: Some(owned(dp.type_.as_str())),
        created_at: Some(iso),
        updated_at: Some(again),
        properties: Some(doc_text(&doc)),
        source_ref_keys: Some(sole_list(source_ref(dataset_id, data_id))),
        source_dataset_ids: Some(sole_list(replace_char(dataset_id, '-', ""))),
        source_run_ids: Some(sole_list(replace_char(run_id, '-', ""))),
        source_run_refs: Some(sole_list(run_ref(run_id, dataset_id, data_id))),
    }
}

// ---------------------------------------------------------------------------
// Edges
// ---------------------------------------------------------------------------

/// One graph edge with its properties.
#[derive(Debug)]
pub struct Edge {
    pub from_id: String,
    pub to_id: String,
    pub relationship_name: String,
    pub properties: Fields,
}

/// Accepts the fields that hold something.
pub open spec fn field_not_null() -> spec_fn((Seq<char>, Json)) -> bool {
    |f: (Seq<char>, Json)| !(f.1 is Null)
}

/// The fields of an object that hold something; none of anything else.
pub open spec fn extra_fields(extra: Option<Json>) -> Seq<(Seq<char>, Json)> {
    match extra {
        Some(Json::Object(fields)) => fields.filter(field_not_null()),
        _ => Seq::empty(),
    }
}

/// The first properties of every edge.
pub open spec fn edge_base(
    from_id: Seq<char>,
    to_id: Seq<char>,
    relationship_name: Seq<char>,
    updated_at: Seq<char>,
) -> Seq<(Seq<char>, Json)> {
    seq![
        ("source_node_id"@, Json::Text(from_id)),
        ("target_node_id"@, Json::Text(to_id)),
        ("relationship_name"@, Json::Text(relationship_name)),
        ("updated_at"@, Json::Text(updated_at)),
    ]
}

/// The properties of an edge: the first four, what `extra` adds, then the
/// edge's identifier and its weight.
pub open spec fn edge_fields(
    from_id: Seq<char>,
    to_id: Seq<char>,
    relationship_name: Seq<char>,
    extra: Option<Json>,
    updated_at: Seq<char>,
) -> Seq<(Seq<char>, Json)> {
    let held = set_all(
        edge_base(from_id, to_id, relationship_name, updated_at),
        extra_fields(extra),
    );
    with_field(
        with_field(
            held,
            "edge_object_id"@,
            Json::Text(uuid_text(edge_object_id_of(from_id, relationship_name, to_id))),
        ),
        "feedback_weight"@,
        half_json(),
    )
}

/// The view of an optional document.
pub open spec fn opt_doc_view(d: Option<Doc>) -> Option<Json> {
    match d {
        Some(x) => Some(x@),
        None => None,
    }
}

proof fn edge_base_is_unambiguous(
    from_id: Seq<char>,
    to_id: Seq<char>,
    relationship_name: Seq<char>,
    updated_at: Seq<char>,
)
    ensures
        unambiguous(Json::Object(edge_base(from_id, to_id, relationship_name, updated_at))),
{
    reveal_strlit("source_node_id");
    reveal_strlit("target_node_id");
    reveal_strlit("relationship_name");
    reveal_strlit("updated_at");
    let f = edge_base(from_id, to_id, relationship_name, updated_at);
    assert(key_mark(f[0].0) == 14115110);
    assert(key_mark(f[1].0) == 14116110);
    assert(key_mark(f[2].0) == 17114110);
    assert(key_mark(f[3].0) == 10117095);
    assert forall|i: int, j: int|
        #![trigger f[i], f[j]]
        0 <= i < j < f.len() implies f[i].0 != f[j].0 by {
        assert(key_mark(f[i].0) != key_mark(f[j].0));
    }
    unambiguous_object(f);
}

/// The properties of an edge that was last changed at `updated_at`.
pub fn edge_properties_at(
    from_id: &str,
    to_id: &str,
    relationship_name: &str,
    extra: Option<Doc>,
    updated_at: &str,
) -> (r: Fields)
    requires
        extra matches Some(d) ==> unambiguous(d@),
    ensures
        field_views(r@) == edge_fields(
            from_id@,
            to_id@,
            relationship_name@,
            opt_doc_view(extra),
            updated_at@,
        ),
        unambiguous(Json::Object(field_views(r@))),
{
    broadcast use doc_view_parts;

    let mut p: Fields = Vec::new();
    put(&mut p, "source_node_id", text_doc(from_id));
    put(&mut p, "target_node_id", text_doc(to_id));
    put(&mut p, "relationship_name", text_doc(relationship_name));
    put(&mut p, "updated_at", text_doc(updated_at));
    let ghost base = edge_base(from_id@, to_id@, relationship_name@, updated_at@);
    assert(field_views(p@) =~= base);
    proof {
        edge_base_is_unambiguous(from_id@, to_id@, relationship_name@, updated_at@);
    }
    let ghost more = extra_fields(opt_doc_view(extra));
    let ghost given = opt_doc_view(extra);
    if let Some(Doc::Object(fields)) = extra {
        let ghost all = field_views(fields@);
        let ghost rows = fields@;
        proof {
            filter_ends(all, field_not_null());
            unambiguous_object(all);
        }
        for field in it: fields
            invariant
                it.seq() == rows,
                all == field_views(rows),
                forall|i: int| 0 <= i < all.len() ==> unambiguous((#[trigger] all[i]).1),
                field_views(p@) == set_all(
                    base,
                    all.take(it.index() as int).filter(field_not_null()),
                ),
                unambiguous(Json::Object(field_views(p@))),
        {
            let ghost i = it.index() as int;
            let ghost kept = all.take(i).filter(field_not_null());
            proof {
                filter_step(all, i, field_not_null());
                assert(all[i] == (field.0@, field.1@));
            }
            let is_null = match &field.1 {
                Doc::Null => true,
                _ => false,
            };
            assert(is_null == (field.1@ is Null));
            if !is_null {
                let ghost before = field_views(p@);
                assert(kept.push(all[i]).drop_last() =~= kept);
                proof {
                    field_set_keeps_unambiguous(before, field.0@, field.1@);
                }
                set_field(&mut p, field.0.as_str(), field.1);
            }
        }
    }
    assert(field_views(p@) == set_all(base, more));
    let id = edge_object_id(from_id, relationship_name, to_id);
    let id_text = id.to_string();
    proof {
        field_set_keeps_unambiguous(
            field_views(p@),
            "edge_object_id"@,
            Json::Text(id_text@),
        );
    }
    set_field(&mut p, "edge_object_id", Doc::Text(id_text));
    proof {
        field_set_keeps_unambiguous(field_views(p@), "feedback_weight"@, half_json());
    }
    set_field(&mut p, "feedback_weight", half());
    p
}

/// The properties of an edge that changes now.
pub fn edge_properties(
    from_id: &str,
    to_id: &str,
    relationship_name: &str,
    extra: Option<Doc>,
) -> (r: Fields)
    requires
        extra matches Some(d) ==> unambiguous(d@),
    ensures
        exists|elapsed: Option<core::time::Duration>|
            field_views(r@) == edge_fields(
                from_id@,
                to_id@,
                relationship_name@,
                opt_doc_view(extra),
                utc_text(#[trigger] secs_in(elapsed) as int, ' '),
            ),
        unambiguous(Json::Object(field_views(r@))),
{
    let updated_at = chrono_fmt_now();
    edge_properties_at(from_id, to_id, relationship_name, extra, updated_at.as_str())
}

} // verus!
