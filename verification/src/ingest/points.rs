//! What holds of every data point of a source: its properties read back from
//! their text, and name the vector table that its vector is written to.

use vstd::prelude::*;

use crate::forget::{index_fields_of, node_tables, texts_of};
use crate::ingest::assemble::{
    add_point, built_of, built_start, chunk_point, document_point, entity_point, kind_of, label_of,
    paired, points_of, raw_edge_of, read_back, summary_at, summary_point, type_point, with_chunk,
    with_chunks, with_node, with_nodes, Built, SourceRow,
};
use crate::ingest::chunk::ChunkRow;
use crate::ingest::datapoints::{
    base_fields, base_is_readable, base_keys_are_distinct, datapoint_of, node_row_of, set_all,
    set_all_keeps_others, set_all_keeps_readable, text_list, DatapointRow,
};
use crate::ingest::extract::{GraphFound, NodeFound};
use crate::ingest::ids::{entity_id_of, entity_type_id_of, name_form, text_summary_id_of};
use crate::json::{key_index_is_first, parsed_number, readable, readable_field, Json};
use crate::remember::new_nodes;
use crate::storage::graph::Graph;
use crate::storage::vector_writer::table_of;
use crate::uid::uuid_text;

verus! {

/// A data point's own index fields are those that its properties name.
proof fn index_fields_are_named(
    ts: int,
    rank: int,
    index: Seq<Seq<char>>,
    extras: Seq<(Seq<char>, Json)>,
    task: Seq<char>,
    hash: Option<Seq<char>>,
    set: Option<Seq<char>>,
)
    requires
        forall|i: int| 0 <= i < extras.len() ==> (#[trigger] extras[i]).0 != "metadata"@,
    ensures
        index_fields_of(
            Json::Object(set_all(base_fields(ts, rank, index, task, hash, set), extras)),
        ) == index,
{
    let base = base_fields(ts, rank, index, task, hash, set);
    set_all_keeps_others(base, extras, "metadata"@);
    base_keys_are_distinct(ts, rank, index, task, hash, set);
    key_index_is_first(base, "metadata"@);
    assert(base[7].0 == "metadata"@);
    let metadata = seq![("index_fields"@, text_list(index))];
    key_index_is_first(metadata, "index_fields"@);
    assert(metadata[0].0 == "index_fields"@);
    texts_of_texts(index);
}

proof fn texts_of_texts(list: Seq<Seq<char>>)
    ensures
        texts_of(list.map_values(|s: Seq<char>| Json::Text(s))) == list,
    decreases list.len(),
{
    let docs = list.map_values(|s: Seq<char>| Json::Text(s));
    if list.len() > 0 {
        texts_of_texts(list.drop_last());
        assert(docs.drop_last() =~= list.drop_last().map_values(|s: Seq<char>| Json::Text(s)));
        assert(list.drop_last().push(list.last()) =~= list);
    } else {
        assert(list =~= Seq::empty());
    }
}

// ---------------------------------------------------------------------------
// One data point
// ---------------------------------------------------------------------------

/// A data point with one index field, which its properties name, and whose
/// properties read back from their text.
pub open spec fn well_kept(p: DatapointRow) -> bool {
    &&& p.index_fields.len() == 1
    &&& index_fields_of(Json::Object(p.properties)) == p.index_fields
    &&& readable(Json::Object(p.properties))
}

/// A field that may be added to the base properties of a data point.
spec fn extra_field(f: (Seq<char>, Json)) -> bool {
    readable_field(f) && f.0 != "metadata"@
}

proof fn plain_extra(key: Seq<char>, value: Json)
    requires
        key.len() > 0,
        key[0] != '$',
        key.len() != 8 || key[0] != 'm',
        match value {
            Json::Null => true,
            Json::Text(_) => true,
            Json::Int(n) => 0 <= n <= u64::MAX,
            Json::List(items) => items.len() == 0,
            _ => false,
        },
    ensures
        extra_field((key, value)),
{
    reveal_strlit("metadata");
    assert("metadata"@.len() == 8 && "metadata"@[0] == 'm');
}

proof fn datapoint_is_well_kept(
    ts: int,
    id: u128,
    type_: Seq<char>,
    name: Option<Seq<char>>,
    rank: int,
    field: Seq<char>,
    embeddable: Seq<char>,
    extras: Seq<(Seq<char>, Json)>,
    task: Seq<char>,
    hash: Option<Seq<char>>,
    set: Option<Seq<char>>,
)
    requires
        i64::MIN <= ts <= i64::MAX,
        i64::MIN <= rank <= i64::MAX,
        parsed_number("0.5"@) is Some,
        forall|i: int| 0 <= i < extras.len() ==> extra_field(#[trigger] extras[i]),
    ensures
        well_kept(
            datapoint_of(
                ts,
                id,
                type_,
                name,
                rank,
                seq![field],
                embeddable,
                extras,
                task,
                hash,
                set,
            ),
        ),
{
    index_fields_are_named(ts, rank, seq![field], extras, task, hash, set);
    base_is_readable(ts as i64, rank as i64, seq![field], task, hash, set);
    set_all_keeps_readable(base_fields(ts, rank, seq![field], task, hash, set), extras);
}

proof fn document_is_well_kept(src: SourceRow)
    requires
        i64::MIN <= src.created_ms <= i64::MAX,
        parsed_number("0.5"@) is Some,
    ensures
        well_kept(document_point(src)),
{
    let extras = seq![
        ("raw_data_location"@, Json::Text("file://"@ + src.doc_name)),
        ("external_metadata"@, Json::Null),
        ("mime_type"@, Json::Text("text/plain"@)),
    ];
    reveal_strlit("raw_data_location");
    reveal_strlit("external_metadata");
    reveal_strlit("mime_type");
    assert forall|i: int| 0 <= i < extras.len() implies extra_field(#[trigger] extras[i]) by {
        plain_extra(extras[i].0, extras[i].1);
    }
    datapoint_is_well_kept(
        src.created_ms,
        src.document_id,
        "TextDocument"@,
        Some(src.doc_name),
        1,
        "name"@,
        src.doc_name,
        extras,
        "extract_chunks_from_documents"@,
        Some(src.content_hash),
        Some(src.dataset_name),
    );
}

proof fn chunk_is_well_kept(src: SourceRow, id: u128, chunk: ChunkRow)
    requires
        i64::MIN <= src.created_ms <= i64::MAX,
        chunk.chunk_size <= u64::MAX,
        chunk.chunk_index <= u64::MAX,
        parsed_number("0.5"@) is Some,
    ensures
        well_kept(chunk_point(src, id, chunk)),
{
    let extras = seq![
        ("text"@, Json::Text(chunk.text)),
        ("chunk_size"@, Json::Int(chunk.chunk_size as int)),
        ("chunk_index"@, Json::Int(chunk.chunk_index as int)),
        ("cut_type"@, Json::Text(chunk.cut_type)),
        ("document_id"@, Json::Text(uuid_text(src.document_id))),
        ("document_name"@, Json::Text(src.doc_name)),
        ("truth_alignment"@, Json::Null),
        ("truth_epoch"@, Json::Null),
    ];
    reveal_strlit("text");
    reveal_strlit("chunk_size");
    reveal_strlit("chunk_index");
    reveal_strlit("cut_type");
    reveal_strlit("document_id");
    reveal_strlit("document_name");
    reveal_strlit("truth_alignment");
    reveal_strlit("truth_epoch");
    assert forall|i: int| 0 <= i < extras.len() implies extra_field(#[trigger] extras[i]) by {
        plain_extra(extras[i].0, extras[i].1);
    }
    datapoint_is_well_kept(
        src.created_ms,
        id,
        "DocumentChunk"@,
        None,
        2,
        "text"@,
        chunk.text,
        extras,
        "extract_chunks_from_documents"@,
        Some(src.content_hash),
        Some(src.dataset_name),
    );
}

proof fn summary_is_well_kept(src: SourceRow, chunk_id: u128, summary: Seq<char>)
    requires
        i64::MIN <= src.created_ms <= i64::MAX,
        parsed_number("0.5"@) is Some,
    ensures
        well_kept(summary_point(src, chunk_id, summary)),
{
    let extras = seq![
        ("text"@, Json::Text(summary)),
        ("source_chunk_id"@, Json::Text(uuid_text(chunk_id))),
        ("summarized_in"@, Json::Null),
        ("global_context_bucket_id"@, Json::Null),
    ];
    reveal_strlit("text");
    reveal_strlit("source_chunk_id");
    reveal_strlit("summarized_in");
    reveal_strlit("global_context_bucket_id");
    assert forall|i: int| 0 <= i < extras.len() implies extra_field(#[trigger] extras[i]) by {
        plain_extra(extras[i].0, extras[i].1);
    }
    datapoint_is_well_kept(
        src.created_ms,
        text_summary_id_of(chunk_id),
        "TextSummary"@,
        None,
        3,
        "text"@,
        summary,
        extras,
        "extract_graph_and_summarize"@,
        Some(src.content_hash),
        Some(src.dataset_name),
    );
}

proof fn type_is_well_kept(src: SourceRow, n: NodeFound)
    requires
        i64::MIN <= src.created_ms <= i64::MAX,
        parsed_number("0.5"@) is Some,
    ensures
        well_kept(type_point(src, n)),
{
    let name = name_form(kind_of(n));
    let extras = seq![
        ("description"@, Json::Text(name)),
        ("relations"@, Json::List(Seq::empty())),
    ];
    reveal_strlit("description");
    reveal_strlit("relations");
    assert forall|i: int| 0 <= i < extras.len() implies extra_field(#[trigger] extras[i]) by {
        plain_extra(extras[i].0, extras[i].1);
    }
    datapoint_is_well_kept(
        src.created_ms,
        entity_type_id_of(kind_of(n)),
        "EntityType"@,
        Some(name),
        0,
        "name"@,
        name,
        extras,
        "extract_graph_from_data"@,
        None,
        None,
    );
}

proof fn entity_is_well_kept(src: SourceRow, n: NodeFound)
    requires
        i64::MIN <= src.created_ms <= i64::MAX,
        parsed_number("0.5"@) is Some,
    ensures
        well_kept(entity_point(src, n)),
{
    let name = name_form(label_of(n));
    let extras = seq![
        ("description"@, Json::Text(n.description)),
        ("truth_alignment"@, Json::Null),
        ("truth_subspace_signature"@, Json::Null),
        ("truth_epoch"@, Json::Null),
    ];
    reveal_strlit("description");
    reveal_strlit("truth_alignment");
    reveal_strlit("truth_subspace_signature");
    reveal_strlit("truth_epoch");
    assert forall|i: int| 0 <= i < extras.len() implies extra_field(#[trigger] extras[i]) by {
        plain_extra(extras[i].0, extras[i].1);
    }
    datapoint_is_well_kept(
        src.created_ms,
        entity_id_of(label_of(n)),
        "Entity"@,
        Some(name),
        0,
        "name"@,
        name,
        extras,
        "extract_graph_from_data"@,
        None,
        None,
    );
}

// ---------------------------------------------------------------------------
// All data points
// ---------------------------------------------------------------------------

pub open spec fn all_well_kept(points: Seq<DatapointRow>) -> bool {
    forall|i: int| 0 <= i < points.len() ==> well_kept(#[trigger] points[i])
}

spec fn built_well(b: Built) -> bool {
    all_well_kept(b.points) && all_well_kept(b.types) && all_well_kept(b.entities)
}

proof fn one_more(points: Seq<DatapointRow>, p: DatapointRow)
    requires
        all_well_kept(points),
        well_kept(p),
    ensures
        all_well_kept(points.push(p)),
        all_well_kept(add_point(points, p)),
{
    let more = points.push(p);
    assert forall|i: int| 0 <= i < more.len() implies well_kept(#[trigger] more[i]) by {
        if i < points.len() {
            assert(more[i] == points[i]);
        }
    }
}

proof fn nodes_build_well(b: Built, src: SourceRow, chunk_id: u128, nodes: Seq<NodeFound>)
    requires
        i64::MIN <= src.created_ms <= i64::MAX,
        parsed_number("0.5"@) is Some,
        built_well(b),
    ensures
        built_well(with_nodes(b, src, chunk_id, nodes)),
    decreases nodes.len(),
{
    if nodes.len() > 0 {
        let n = nodes.last();
        nodes_build_well(b, src, chunk_id, nodes.drop_last());
        let before = with_nodes(b, src, chunk_id, nodes.drop_last());
        type_is_well_kept(src, n);
        entity_is_well_kept(src, n);
        one_more(before.types, type_point(src, n));
        one_more(before.entities, entity_point(src, n));
        assert(with_nodes(b, src, chunk_id, nodes) == with_node(before, src, chunk_id, n));
    }
}

proof fn chunks_build_well(
    src: SourceRow,
    ids: Seq<u128>,
    chunks: Seq<ChunkRow>,
    graphs: Seq<GraphFound>,
    summaries: Seq<Seq<char>>,
    n: nat,
)
    requires
        i64::MIN <= src.created_ms <= i64::MAX,
        parsed_number("0.5"@) is Some,
        n <= chunks.len(),
        chunks_fit(chunks),
    ensures
        built_well(with_chunks(built_start(src), src, ids, chunks, graphs, summaries, n)),
    decreases n,
{
    document_is_well_kept(src);
    if n > 0 {
        let m = (n - 1) as nat;
        chunks_build_well(src, ids, chunks, graphs, summaries, m);
        let before = with_chunks(built_start(src), src, ids, chunks, graphs, summaries, m);
        let id = ids[n - 1];
        let chunk = chunks[n - 1];
        let summary = summary_at(summaries, chunk.chunk_index);
        chunk_is_well_kept(src, id, chunk);
        summary_is_well_kept(src, id, summary);
        one_more(before.points, chunk_point(src, id, chunk));
        one_more(
            before.points.push(chunk_point(src, id, chunk)),
            summary_point(src, id, summary),
        );
        let after = with_chunk(before, src, id, chunk, graphs[n - 1], summaries);
        let begun = Built {
            points: before.points.push(chunk_point(src, id, chunk)).push(
                summary_point(src, id, summary),
            ),
            edges: before.edges.push(
                raw_edge_of(id, src.document_id, "is_part_of"@, None, src.updated_at),
            ).push(raw_edge_of(text_summary_id_of(id), id, "made_from"@, None, src.updated_at)),
            ..before
        };
        nodes_build_well(begun, src, id, graphs[n - 1].nodes);
        assert(after.points == with_nodes(begun, src, id, graphs[n - 1].nodes).points);
    }
}

/// The sizes and positions of chunks fit 64 bits.
pub open spec fn chunks_fit(chunks: Seq<ChunkRow>) -> bool {
    forall|i: int|
        0 <= i < chunks.len() ==> (#[trigger] chunks[i]).chunk_size <= u64::MAX
            && chunks[i].chunk_index <= u64::MAX
}

/// Every data point of a source has one index field, which its properties name,
/// and properties that read back from their text. One half must spell a number.
pub proof fn points_are_well_kept(
    src: SourceRow,
    ids: Seq<u128>,
    chunks: Seq<ChunkRow>,
    graphs: Seq<GraphFound>,
    summaries: Seq<Seq<char>>,
)
    requires
        i64::MIN <= src.created_ms <= i64::MAX,
        parsed_number("0.5"@) is Some,
        chunks_fit(chunks),
    ensures
        all_well_kept(points_of(built_of(src, ids, chunks, graphs, summaries))),
{
    let n = paired(chunks.len(), graphs.len());
    chunks_build_well(src, ids, chunks, graphs, summaries, n);
    let b = built_of(src, ids, chunks, graphs, summaries);
    let points = points_of(b);
    assert forall|i: int| 0 <= i < points.len() implies well_kept(#[trigger] points[i]) by {
        if i < b.points.len() {
            assert(points[i] == b.points[i]);
        } else if i < b.points.len() + b.types.len() {
            assert(points[i] == b.types[i - b.points.len()]);
        } else {
            assert(points[i] == b.entities[i - b.points.len() - b.types.len()]);
        }
    }
}

/// The vector of a data point is deleted where it was written: the tables that
/// forgetting looks into for a node of the source are just the one that the
/// vector of its data point goes to.
pub proof fn deleted_where_written(
    g: Graph,
    points: Seq<DatapointRow>,
    dataset: u128,
    data: u128,
    run: u128,
    k: int,
)
    requires
        all_well_kept(points),
        read_back(points),
        0 <= k < points.len(),
    ensures
        node_tables(new_nodes(g, points, dataset, data, run)[k]) == seq![table_of(points[k])],
{
    let p = points[k];
    let n = new_nodes(g, points, dataset, data, run)[k];
    let row = node_row_of(p, uuid_text(dataset), uuid_text(data), uuid_text(run));
    assert(n.type_ == row.type_ && n.properties == row.properties);
    assert(well_kept(p));
    assert(node_tables(n) =~= seq![p.type_ + "_"@ + p.index_fields[0]]);
}

} // verus!
