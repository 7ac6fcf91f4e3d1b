//! What a remembered text leaves behind.

use vstd::prelude::*;

use crate::ingest::assemble::{
    built_of, built_start, chunk_point, dedup_raw, document_point, entity_named, entity_point,
    has_point, has_raw, points_of, raw_edge_of, same_raw, summary_point, type_point, with_chunk,
    with_chunks, with_nodes, with_relations, Built, RawEdgeRow, SourceRow,
};
use crate::ingest::chunk::ChunkRow;
use crate::ingest::datapoints::{
    base_fields, base_keys_are_distinct, edge_fields, set_all, set_all_keeps_others,
};
use crate::ingest::extract::{EdgeFound, GraphFound, NodeFound};
use crate::ingest::ids::{
    entity_id_of, entity_type_id_of, name_form, normal_form, text_summary_id_of,
};
use crate::json::{
    field_set_is_read, field_set_keeps_others, half_json, key_index, key_index_is_first, member,
    parsed_number, Json,
};
use crate::text::blank;
use crate::uid::uuid_text;

verus! {

// ---------------------------------------------------------------------------
// Reading properties
// ---------------------------------------------------------------------------

/// What properties hold under a key.
pub open spec fn under(properties: Seq<(Seq<char>, Json)>, key: Seq<char>) -> Option<Json> {
    member(Json::Object(properties), key)
}

/// The last of the fields set under a key is read.
pub proof fn set_is_read(
    fields: Seq<(Seq<char>, Json)>,
    extras: Seq<(Seq<char>, Json)>,
    i: int,
)
    requires
        0 <= i < extras.len(),
        forall|j: int| i < j < extras.len() ==> (#[trigger] extras[j]).0 != extras[i].0,
    ensures
        under(set_all(fields, extras), extras[i].0) == Some(extras[i].1),
    decreases extras.len(),
{
    let head = extras.drop_last();
    let before = set_all(fields, head);
    if i == extras.len() - 1 {
        field_set_is_read(before, extras.last().0, extras.last().1);
    } else {
        assert forall|j: int| i < j < head.len() implies (#[trigger] head[j]).0 != head[i].0 by {
            assert(extras[j].0 != extras[i].0);
        }
        set_is_read(fields, head, i);
        assert(extras[extras.len() - 1].0 != extras[i].0);
        field_set_keeps_others(before, extras.last().0, extras.last().1, extras[i].0);
    }
}

/// Where no key occurs twice, each field is read.
pub proof fn field_is_read(fields: Seq<(Seq<char>, Json)>, i: int)
    requires
        0 <= i < fields.len(),
        forall|j: int| 0 <= j < i ==> (#[trigger] fields[j]).0 != fields[i].0,
    ensures
        under(fields, fields[i].0) == Some(fields[i].1),
{
    key_index_is_first(fields, fields[i].0);
    if let Some(j) = key_index(fields, fields[i].0) {
        if j < i {
            assert(fields[j].0 != fields[i].0);
        }
        if i < j {
            assert(fields[i].0 != fields[i].0);
        }
    }
}

// ---------------------------------------------------------------------------
// Growing
// ---------------------------------------------------------------------------

/// `b` begins with `a`.
pub open spec fn begins<A>(a: Seq<A>, b: Seq<A>) -> bool {
    &&& a.len() <= b.len()
    &&& forall|i: int| 0 <= i < a.len() ==> #[trigger] b[i] == a[i]
}

spec fn grown(a: Built, b: Built) -> bool {
    &&& begins(a.points, b.points)
    &&& begins(a.types, b.types)
    &&& begins(a.entities, b.entities)
    &&& begins(a.edges, b.edges)
}

proof fn nodes_grow(b: Built, src: SourceRow, id: u128, nodes: Seq<NodeFound>, j: int)
    requires
        0 <= j <= nodes.len(),
    ensures
        grown(with_nodes(b, src, id, nodes.take(j)), with_nodes(b, src, id, nodes)),
        with_nodes(b, src, id, nodes).points == b.points,
        grown(b, with_nodes(b, src, id, nodes)),
    decreases nodes.len(),
{
    if nodes.len() == 0 {
        assert(nodes.take(j) =~= nodes);
    } else {
        let head = nodes.drop_last();
        nodes_grow(b, src, id, head, head.len() as int);
        assert(head.take(head.len() as int) =~= head);
        assert(grown(with_nodes(b, src, id, head), with_nodes(b, src, id, nodes)));
        if j == nodes.len() {
            assert(nodes.take(j) =~= nodes);
        } else {
            nodes_grow(b, src, id, head, j);
            assert(head.take(j) =~= nodes.take(j));
        }
    }
}

proof fn relations_grow(
    edges: Seq<RawEdgeRow>,
    src: SourceRow,
    nodes: Seq<NodeFound>,
    found: Seq<EdgeFound>,
    m: int,
)
    requires
        0 <= m <= found.len(),
    ensures
        begins(
            with_relations(edges, src, nodes, found.take(m)),
            with_relations(edges, src, nodes, found),
        ),
        begins(edges, with_relations(edges, src, nodes, found)),
    decreases found.len(),
{
    if found.len() == 0 {
        assert(found.take(m) =~= found);
    } else {
        let head = found.drop_last();
        relations_grow(edges, src, nodes, head, head.len() as int);
        if m == found.len() {
            assert(found.take(m) =~= found);
        } else {
            relations_grow(edges, src, nodes, head, m);
            assert(head.take(m) =~= found.take(m));
        }
    }
}

proof fn chunk_grows(
    b: Built,
    src: SourceRow,
    id: u128,
    chunk: ChunkRow,
    graph: GraphFound,
    summaries: Seq<Seq<char>>,
)
    ensures
        grown(b, with_chunk(b, src, id, chunk, graph, summaries)),
        with_chunk(b, src, id, chunk, graph, summaries).points == b.points.push(
            chunk_point(src, id, chunk),
        ).push(
            summary_point(
                src,
                id,
                crate::ingest::assemble::summary_at(summaries, chunk.chunk_index),
            ),
        ),
{
    let begun = chunk_begun(b, src, id, chunk, summaries);
    nodes_grow(begun, src, id, graph.nodes, 0);
    let named = with_nodes(begun, src, id, graph.nodes);
    relations_grow(named.edges, src, graph.nodes, graph.edges, 0);
    let after = with_chunk(b, src, id, chunk, graph, summaries);
    assert(after == (Built {
        edges: with_relations(named.edges, src, graph.nodes, graph.edges),
        ..named
    }));
}

spec fn chunk_begun(
    b: Built,
    src: SourceRow,
    id: u128,
    chunk: ChunkRow,
    summaries: Seq<Seq<char>>,
) -> Built {
    Built {
        points: b.points.push(chunk_point(src, id, chunk)).push(
            summary_point(
                src,
                id,
                crate::ingest::assemble::summary_at(summaries, chunk.chunk_index),
            ),
        ),
        edges: b.edges.push(
            raw_edge_of(id, src.document_id, "is_part_of"@, None, src.updated_at),
        ).push(raw_edge_of(text_summary_id_of(id), id, "made_from"@, None, src.updated_at)),
        ..b
    }
}

proof fn chunks_grow(
    src: SourceRow,
    ids: Seq<u128>,
    chunks: Seq<ChunkRow>,
    graphs: Seq<GraphFound>,
    summaries: Seq<Seq<char>>,
    k: nat,
    n: nat,
)
    requires
        k <= n,
    ensures
        grown(
            with_chunks(built_start(src), src, ids, chunks, graphs, summaries, k),
            with_chunks(built_start(src), src, ids, chunks, graphs, summaries, n),
        ),
    decreases n,
{
    if k < n {
        let m = (n - 1) as nat;
        chunks_grow(src, ids, chunks, graphs, summaries, k, m);
        chunk_grows(
            with_chunks(built_start(src), src, ids, chunks, graphs, summaries, m),
            src,
            ids[n - 1],
            chunks[n - 1],
            graphs[n - 1],
            summaries,
        );
    }
}

proof fn points_are_laid_out(
    src: SourceRow,
    ids: Seq<u128>,
    chunks: Seq<ChunkRow>,
    graphs: Seq<GraphFound>,
    summaries: Seq<Seq<char>>,
    n: nat,
)
    ensures
        ({
            let points = with_chunks(
                built_start(src),
                src,
                ids,
                chunks,
                graphs,
                summaries,
                n,
            ).points;
            &&& points.len() == 2 * n + 1
            &&& points[0] == document_point(src)
            &&& forall|k: int|
                #![trigger chunks[k]]
                0 <= k < n ==> points[2 * k + 1] == chunk_point(src, ids[k], chunks[k])
                    && points[2 * k + 2] == summary_point(
                    src,
                    ids[k],
                    crate::ingest::assemble::summary_at(summaries, chunks[k].chunk_index),
                )
        }),
    decreases n,
{
    if n > 0 {
        let m = (n - 1) as nat;
        points_are_laid_out(src, ids, chunks, graphs, summaries, m);
        chunk_grows(
            with_chunks(built_start(src), src, ids, chunks, graphs, summaries, m),
            src,
            ids[n - 1],
            chunks[n - 1],
            graphs[n - 1],
            summaries,
        );
    }
}

proof fn document_keys_differ()
    ensures
        "raw_data_location"@ != "external_metadata"@,
        "raw_data_location"@ != "mime_type"@,
        "external_metadata"@ != "mime_type"@,
{
    reveal_strlit("raw_data_location");
    reveal_strlit("external_metadata");
    reveal_strlit("mime_type");
    assert("raw_data_location"@[0] != "external_metadata"@[0]);
    assert("raw_data_location"@.len() != "mime_type"@.len());
    assert("external_metadata"@.len() != "mime_type"@.len());
}

proof fn chunk_keys_differ()
    ensures
        "text"@ != "chunk_size"@,
        "text"@ != "chunk_index"@,
        "text"@ != "cut_type"@,
        "text"@ != "document_id"@,
        "text"@ != "document_name"@,
        "text"@ != "truth_alignment"@,
        "text"@ != "truth_epoch"@,
        "chunk_size"@ != "chunk_index"@,
        "chunk_size"@ != "cut_type"@,
        "chunk_size"@ != "document_id"@,
        "chunk_size"@ != "document_name"@,
        "chunk_size"@ != "truth_alignment"@,
        "chunk_size"@ != "truth_epoch"@,
        "chunk_index"@ != "cut_type"@,
        "chunk_index"@ != "document_id"@,
        "chunk_index"@ != "document_name"@,
        "chunk_index"@ != "truth_alignment"@,
        "chunk_index"@ != "truth_epoch"@,
        "cut_type"@ != "document_id"@,
        "cut_type"@ != "document_name"@,
        "cut_type"@ != "truth_alignment"@,
        "cut_type"@ != "truth_epoch"@,
        "document_id"@ != "document_name"@,
        "document_id"@ != "truth_alignment"@,
        "document_id"@ != "truth_epoch"@,
        "document_name"@ != "truth_alignment"@,
        "document_name"@ != "truth_epoch"@,
        "truth_alignment"@ != "truth_epoch"@,
{
    reveal_strlit("text");
    reveal_strlit("chunk_size");
    reveal_strlit("chunk_index");
    reveal_strlit("cut_type");
    reveal_strlit("document_id");
    reveal_strlit("document_name");
    reveal_strlit("truth_alignment");
    reveal_strlit("truth_epoch");
    assert("text"@.len() != "chunk_size"@.len());
    assert("text"@.len() != "chunk_index"@.len());
    assert("text"@.len() != "cut_type"@.len());
    assert("text"@.len() != "document_id"@.len());
    assert("text"@.len() != "document_name"@.len());
    assert("text"@.len() != "truth_alignment"@.len());
    assert("text"@.len() != "truth_epoch"@.len());
    assert("chunk_size"@.len() != "chunk_index"@.len());
    assert("chunk_size"@.len() != "cut_type"@.len());
    assert("chunk_size"@.len() != "document_id"@.len());
    assert("chunk_size"@.len() != "document_name"@.len());
    assert("chunk_size"@.len() != "truth_alignment"@.len());
    assert("chunk_size"@.len() != "truth_epoch"@.len());
    assert("chunk_index"@.len() != "cut_type"@.len());
    assert("chunk_index"@[0] != "document_id"@[0]);
    assert("chunk_index"@.len() != "document_name"@.len());
    assert("chunk_index"@.len() != "truth_alignment"@.len());
    assert("chunk_index"@[0] != "truth_epoch"@[0]);
    assert("cut_type"@.len() != "document_id"@.len());
    assert("cut_type"@.len() != "document_name"@.len());
    assert("cut_type"@.len() != "truth_alignment"@.len());
    assert("cut_type"@.len() != "truth_epoch"@.len());
    assert("document_id"@.len() != "document_name"@.len());
    assert("document_id"@.len() != "truth_alignment"@.len());
    assert("document_id"@[0] != "truth_epoch"@[0]);
    assert("document_name"@.len() != "truth_alignment"@.len());
    assert("document_name"@.len() != "truth_epoch"@.len());
    assert("truth_alignment"@.len() != "truth_epoch"@.len());
}

proof fn summary_keys_differ()
    ensures
        "text"@ != "source_chunk_id"@,
        "text"@ != "summarized_in"@,
        "text"@ != "global_context_bucket_id"@,
        "source_chunk_id"@ != "summarized_in"@,
        "source_chunk_id"@ != "global_context_bucket_id"@,
        "summarized_in"@ != "global_context_bucket_id"@,
{
    reveal_strlit("text");
    reveal_strlit("source_chunk_id");
    reveal_strlit("summarized_in");
    reveal_strlit("global_context_bucket_id");
    assert("text"@.len() != "source_chunk_id"@.len());
    assert("text"@.len() != "summarized_in"@.len());
    assert("text"@.len() != "global_context_bucket_id"@.len());
    assert("source_chunk_id"@.len() != "summarized_in"@.len());
    assert("source_chunk_id"@.len() != "global_context_bucket_id"@.len());
    assert("summarized_in"@.len() != "global_context_bucket_id"@.len());
}

// ---------------------------------------------------------------------------
// The document, its chunks and their summaries
// ---------------------------------------------------------------------------

/// The points of a source begin with the document: it has the identifier and the
/// name of the source, and is found by that name.
pub proof fn document_is_kept(
    src: SourceRow,
    ids: Seq<u128>,
    chunks: Seq<ChunkRow>,
    graphs: Seq<GraphFound>,
    summaries: Seq<Seq<char>>,
)
    ensures
        ({
            let points = points_of(built_of(src, ids, chunks, graphs, summaries));
            &&& points.len() > 0
            &&& points[0].id == src.document_id
            &&& points[0].type_ == "TextDocument"@
            &&& points[0].name == Some(src.doc_name)
            &&& points[0].index_fields == seq!["name"@]
            &&& points[0].embeddable_text == src.doc_name
            &&& under(points[0].properties, "raw_data_location"@) == Some(
                Json::Text("file://"@ + src.doc_name),
            )
            &&& under(points[0].properties, "mime_type"@) == Some(Json::Text("text/plain"@))
        }),
{
    let n = crate::ingest::assemble::paired(chunks.len(), graphs.len());
    points_are_laid_out(src, ids, chunks, graphs, summaries, n);
    let p = document_point(src);
    let extras = seq![
        ("raw_data_location"@, Json::Text("file://"@ + src.doc_name)),
        ("external_metadata"@, Json::Null),
        ("mime_type"@, Json::Text("text/plain"@)),
    ];
    let base = base_fields(
        src.created_ms,
        1,
        seq!["name"@],
        "extract_chunks_from_documents"@,
        Some(src.content_hash),
        Some(src.dataset_name),
    );
    assert(p.properties == set_all(base, extras));
    document_keys_differ();
    set_is_read(base, extras, 0);
    set_is_read(base, extras, 2);
}

/// Every chunk with what the model found in it has a point: it holds the text of
/// the chunk, is found by it, and names the document it is part of.
#[verifier::spinoff_prover]
#[verifier::rlimit(30)]
pub proof fn chunk_is_kept(
    src: SourceRow,
    ids: Seq<u128>,
    chunks: Seq<ChunkRow>,
    graphs: Seq<GraphFound>,
    summaries: Seq<Seq<char>>,
    k: int,
)
    requires
        0 <= k < chunks.len(),
        k < graphs.len(),
    ensures
        ({
            let points = points_of(built_of(src, ids, chunks, graphs, summaries));
            let p = points[2 * k + 1];
            &&& 2 * k + 1 < points.len()
            &&& p.id == ids[k]
            &&& p.type_ == "DocumentChunk"@
            &&& p.name is None
            &&& p.index_fields == seq!["text"@]
            &&& p.embeddable_text == chunks[k].text
            &&& under(p.properties, "text"@) == Some(Json::Text(chunks[k].text))
            &&& under(p.properties, "chunk_size"@) == Some(Json::Int(chunks[k].chunk_size as int))
            &&& under(p.properties, "chunk_index"@) == Some(
                Json::Int(chunks[k].chunk_index as int),
            )
            &&& under(p.properties, "cut_type"@) == Some(Json::Text(chunks[k].cut_type))
            &&& under(p.properties, "document_id"@) == Some(
                Json::Text(uuid_text(src.document_id)),
            )
            &&& under(p.properties, "document_name"@) == Some(Json::Text(src.doc_name))
        }),
{
    let n = crate::ingest::assemble::paired(chunks.len(), graphs.len());
    points_are_laid_out(src, ids, chunks, graphs, summaries, n);
    let chunk = chunks[k];
    let p = chunk_point(src, ids[k], chunk);
    let extras = seq![
        ("text"@, Json::Text(chunk.text)),
        ("chunk_size"@, Json::Int(chunk.chunk_size as int)),
        ("chunk_index"@, Json::Int(chunk.chunk_index as int)),
        ("cut_type"@, Json::Text(chunk.cut_type)),
        ("document_id"@, Json::Text(uuid_text(src.document_id))),
        ("document_name"@, Json::Text(src.doc_name)),
        ("truth_alignment"@, Json::Null),
        ("truth_epoch"@, Json::Null),
    ];
    let base = base_fields(
        src.created_ms,
        2,
        seq!["text"@],
        "extract_chunks_from_documents"@,
        Some(src.content_hash),
        Some(src.dataset_name),
    );
    assert(p.properties == set_all(base, extras));
    chunk_keys_differ();
    set_is_read(base, extras, 0);
    set_is_read(base, extras, 1);
    set_is_read(base, extras, 2);
    set_is_read(base, extras, 3);
    set_is_read(base, extras, 4);
    set_is_read(base, extras, 5);
}

/// Every such chunk has a summary of its own: the one at the chunk's index, whole,
/// which the point holds and is found by. A chunk without one has an empty summary.
#[verifier::spinoff_prover]
#[verifier::rlimit(30)]
pub proof fn summary_is_kept(
    src: SourceRow,
    ids: Seq<u128>,
    chunks: Seq<ChunkRow>,
    graphs: Seq<GraphFound>,
    summaries: Seq<Seq<char>>,
    k: int,
)
    requires
        0 <= k < chunks.len(),
        k < graphs.len(),
    ensures
        ({
            let points = points_of(built_of(src, ids, chunks, graphs, summaries));
            let p = points[2 * k + 2];
            let i = chunks[k].chunk_index as int;
            let summary = if i < summaries.len() {
                summaries[i]
            } else {
                Seq::empty()
            };
            &&& 2 * k + 2 < points.len()
            &&& p.id == text_summary_id_of(ids[k])
            &&& p.type_ == "TextSummary"@
            &&& p.name is None
            &&& p.index_fields == seq!["text"@]
            &&& p.embeddable_text == summary
            &&& under(p.properties, "text"@) == Some(Json::Text(summary))
            &&& under(p.properties, "source_chunk_id"@) == Some(Json::Text(uuid_text(ids[k])))
        }),
{
    let n = crate::ingest::assemble::paired(chunks.len(), graphs.len());
    points_are_laid_out(src, ids, chunks, graphs, summaries, n);
    let summary = crate::ingest::assemble::summary_at(summaries, chunks[k].chunk_index);
    let p = summary_point(src, ids[k], summary);
    let extras = seq![
        ("text"@, Json::Text(summary)),
        ("source_chunk_id"@, Json::Text(uuid_text(ids[k]))),
        ("summarized_in"@, Json::Null),
        ("global_context_bucket_id"@, Json::Null),
    ];
    let base = base_fields(
        src.created_ms,
        3,
        seq!["text"@],
        "extract_graph_and_summarize"@,
        Some(src.content_hash),
        Some(src.dataset_name),
    );
    assert(p.properties == set_all(base, extras));
    summary_keys_differ();
    set_is_read(base, extras, 0);
    set_is_read(base, extras, 1);
}

// ---------------------------------------------------------------------------
// What every point says of its origin
// ---------------------------------------------------------------------------

/// A property that every point has, whatever it stands for.
pub open spec fn origin_key(key: Seq<char>) -> bool {
    ||| key == "created_at"@
    ||| key == "updated_at"@
    ||| key == "ontology_valid"@
    ||| key == "version"@
    ||| key == "topological_rank"@
    ||| key == "source_pipeline"@
    ||| key == "source_task"@
    ||| key == "source_node_set"@
    ||| key == "source_content_hash"@
    ||| key == "feedback_weight"@
    ||| key == "importance_weight"@
    ||| key == "ontology_uri"@
    ||| key == "valid_to"@
    ||| key == "belongs_to_set"@
    ||| key == "source_user"@
}

proof fn raw_data_location_is_no_origin()
    ensures
        !origin_key("raw_data_location"@),
{
    reveal_strlit("raw_data_location");
    reveal_strlit("created_at");
    reveal_strlit("updated_at");
    reveal_strlit("ontology_valid");
    reveal_strlit("version");
    reveal_strlit("topological_rank");
    reveal_strlit("source_pipeline");
    reveal_strlit("source_task");
    reveal_strlit("source_node_set");
    reveal_strlit("source_content_hash");
    reveal_strlit("feedback_weight");
    reveal_strlit("importance_weight");
    assert("raw_data_location"@.len() != "created_at"@.len());
    assert("raw_data_location"@.len() != "updated_at"@.len());
    assert("raw_data_location"@.len() != "ontology_valid"@.len());
    assert("raw_data_location"@.len() != "version"@.len());
    assert("raw_data_location"@.len() != "topological_rank"@.len());
    assert("raw_data_location"@.len() != "source_pipeline"@.len());
    assert("raw_data_location"@.len() != "source_task"@.len());
    assert("raw_data_location"@.len() != "source_node_set"@.len());
    assert("raw_data_location"@.len() != "source_content_hash"@.len());
    assert("raw_data_location"@.len() != "feedback_weight"@.len());
    assert("raw_data_location"@[0] != "importance_weight"@[0]);
    reveal_strlit("ontology_uri");
    reveal_strlit("valid_to");
    reveal_strlit("belongs_to_set");
    reveal_strlit("source_user");
    assert("raw_data_location"@.len() != "ontology_uri"@.len());
    assert("raw_data_location"@.len() != "valid_to"@.len());
    assert("raw_data_location"@.len() != "belongs_to_set"@.len());
    assert("raw_data_location"@.len() != "source_user"@.len());
}

proof fn external_metadata_is_no_origin()
    ensures
        !origin_key("external_metadata"@),
{
    reveal_strlit("external_metadata");
    reveal_strlit("created_at");
    reveal_strlit("updated_at");
    reveal_strlit("ontology_valid");
    reveal_strlit("version");
    reveal_strlit("topological_rank");
    reveal_strlit("source_pipeline");
    reveal_strlit("source_task");
    reveal_strlit("source_node_set");
    reveal_strlit("source_content_hash");
    reveal_strlit("feedback_weight");
    reveal_strlit("importance_weight");
    assert("external_metadata"@.len() != "created_at"@.len());
    assert("external_metadata"@.len() != "updated_at"@.len());
    assert("external_metadata"@.len() != "ontology_valid"@.len());
    assert("external_metadata"@.len() != "version"@.len());
    assert("external_metadata"@.len() != "topological_rank"@.len());
    assert("external_metadata"@.len() != "source_pipeline"@.len());
    assert("external_metadata"@.len() != "source_task"@.len());
    assert("external_metadata"@.len() != "source_node_set"@.len());
    assert("external_metadata"@.len() != "source_content_hash"@.len());
    assert("external_metadata"@.len() != "feedback_weight"@.len());
    assert("external_metadata"@[0] != "importance_weight"@[0]);
    reveal_strlit("ontology_uri");
    reveal_strlit("valid_to");
    reveal_strlit("belongs_to_set");
    reveal_strlit("source_user");
    assert("external_metadata"@.len() != "ontology_uri"@.len());
    assert("external_metadata"@.len() != "valid_to"@.len());
    assert("external_metadata"@.len() != "belongs_to_set"@.len());
    assert("external_metadata"@.len() != "source_user"@.len());
}

proof fn mime_type_is_no_origin()
    ensures
        !origin_key("mime_type"@),
{
    reveal_strlit("mime_type");
    reveal_strlit("created_at");
    reveal_strlit("updated_at");
    reveal_strlit("ontology_valid");
    reveal_strlit("version");
    reveal_strlit("topological_rank");
    reveal_strlit("source_pipeline");
    reveal_strlit("source_task");
    reveal_strlit("source_node_set");
    reveal_strlit("source_content_hash");
    reveal_strlit("feedback_weight");
    reveal_strlit("importance_weight");
    assert("mime_type"@.len() != "created_at"@.len());
    assert("mime_type"@.len() != "updated_at"@.len());
    assert("mime_type"@.len() != "ontology_valid"@.len());
    assert("mime_type"@.len() != "version"@.len());
    assert("mime_type"@.len() != "topological_rank"@.len());
    assert("mime_type"@.len() != "source_pipeline"@.len());
    assert("mime_type"@.len() != "source_task"@.len());
    assert("mime_type"@.len() != "source_node_set"@.len());
    assert("mime_type"@.len() != "source_content_hash"@.len());
    assert("mime_type"@.len() != "feedback_weight"@.len());
    assert("mime_type"@.len() != "importance_weight"@.len());
    reveal_strlit("ontology_uri");
    reveal_strlit("valid_to");
    reveal_strlit("belongs_to_set");
    reveal_strlit("source_user");
    assert("mime_type"@.len() != "ontology_uri"@.len());
    assert("mime_type"@.len() != "valid_to"@.len());
    assert("mime_type"@.len() != "belongs_to_set"@.len());
    assert("mime_type"@.len() != "source_user"@.len());
}

proof fn text_is_no_origin()
    ensures
        !origin_key("text"@),
{
    reveal_strlit("text");
    reveal_strlit("created_at");
    reveal_strlit("updated_at");
    reveal_strlit("ontology_valid");
    reveal_strlit("version");
    reveal_strlit("topological_rank");
    reveal_strlit("source_pipeline");
    reveal_strlit("source_task");
    reveal_strlit("source_node_set");
    reveal_strlit("source_content_hash");
    reveal_strlit("feedback_weight");
    reveal_strlit("importance_weight");
    assert("text"@.len() != "created_at"@.len());
    assert("text"@.len() != "updated_at"@.len());
    assert("text"@.len() != "ontology_valid"@.len());
    assert("text"@.len() != "version"@.len());
    assert("text"@.len() != "topological_rank"@.len());
    assert("text"@.len() != "source_pipeline"@.len());
    assert("text"@.len() != "source_task"@.len());
    assert("text"@.len() != "source_node_set"@.len());
    assert("text"@.len() != "source_content_hash"@.len());
    assert("text"@.len() != "feedback_weight"@.len());
    assert("text"@.len() != "importance_weight"@.len());
    reveal_strlit("ontology_uri");
    reveal_strlit("valid_to");
    reveal_strlit("belongs_to_set");
    reveal_strlit("source_user");
    assert("text"@.len() != "ontology_uri"@.len());
    assert("text"@.len() != "valid_to"@.len());
    assert("text"@.len() != "belongs_to_set"@.len());
    assert("text"@.len() != "source_user"@.len());
}

proof fn chunk_size_is_no_origin()
    ensures
        !origin_key("chunk_size"@),
{
    reveal_strlit("chunk_size");
    reveal_strlit("created_at");
    reveal_strlit("updated_at");
    reveal_strlit("ontology_valid");
    reveal_strlit("version");
    reveal_strlit("topological_rank");
    reveal_strlit("source_pipeline");
    reveal_strlit("source_task");
    reveal_strlit("source_node_set");
    reveal_strlit("source_content_hash");
    reveal_strlit("feedback_weight");
    reveal_strlit("importance_weight");
    assert("chunk_size"@[1] != "created_at"@[1]);
    assert("chunk_size"@[0] != "updated_at"@[0]);
    assert("chunk_size"@.len() != "ontology_valid"@.len());
    assert("chunk_size"@.len() != "version"@.len());
    assert("chunk_size"@.len() != "topological_rank"@.len());
    assert("chunk_size"@.len() != "source_pipeline"@.len());
    assert("chunk_size"@.len() != "source_task"@.len());
    assert("chunk_size"@.len() != "source_node_set"@.len());
    assert("chunk_size"@.len() != "source_content_hash"@.len());
    assert("chunk_size"@.len() != "feedback_weight"@.len());
    assert("chunk_size"@.len() != "importance_weight"@.len());
    reveal_strlit("ontology_uri");
    reveal_strlit("valid_to");
    reveal_strlit("belongs_to_set");
    reveal_strlit("source_user");
    assert("chunk_size"@.len() != "ontology_uri"@.len());
    assert("chunk_size"@.len() != "valid_to"@.len());
    assert("chunk_size"@.len() != "belongs_to_set"@.len());
    assert("chunk_size"@.len() != "source_user"@.len());
}

proof fn chunk_index_is_no_origin()
    ensures
        !origin_key("chunk_index"@),
{
    reveal_strlit("chunk_index");
    reveal_strlit("created_at");
    reveal_strlit("updated_at");
    reveal_strlit("ontology_valid");
    reveal_strlit("version");
    reveal_strlit("topological_rank");
    reveal_strlit("source_pipeline");
    reveal_strlit("source_task");
    reveal_strlit("source_node_set");
    reveal_strlit("source_content_hash");
    reveal_strlit("feedback_weight");
    reveal_strlit("importance_weight");
    assert("chunk_index"@.len() != "created_at"@.len());
    assert("chunk_index"@.len() != "updated_at"@.len());
    assert("chunk_index"@.len() != "ontology_valid"@.len());
    assert("chunk_index"@.len() != "version"@.len());
    assert("chunk_index"@.len() != "topological_rank"@.len());
    assert("chunk_index"@.len() != "source_pipeline"@.len());
    assert("chunk_index"@[0] != "source_task"@[0]);
    assert("chunk_index"@.len() != "source_node_set"@.len());
    assert("chunk_index"@.len() != "source_content_hash"@.len());
    assert("chunk_index"@.len() != "feedback_weight"@.len());
    assert("chunk_index"@.len() != "importance_weight"@.len());
    reveal_strlit("ontology_uri");
    reveal_strlit("valid_to");
    reveal_strlit("belongs_to_set");
    reveal_strlit("source_user");
    assert("chunk_index"@.len() != "ontology_uri"@.len());
    assert("chunk_index"@.len() != "valid_to"@.len());
    assert("chunk_index"@.len() != "belongs_to_set"@.len());
    assert("chunk_index"@[0] != "source_user"@[0]);
}

proof fn cut_type_is_no_origin()
    ensures
        !origin_key("cut_type"@),
{
    reveal_strlit("cut_type");
    reveal_strlit("created_at");
    reveal_strlit("updated_at");
    reveal_strlit("ontology_valid");
    reveal_strlit("version");
    reveal_strlit("topological_rank");
    reveal_strlit("source_pipeline");
    reveal_strlit("source_task");
    reveal_strlit("source_node_set");
    reveal_strlit("source_content_hash");
    reveal_strlit("feedback_weight");
    reveal_strlit("importance_weight");
    assert("cut_type"@.len() != "created_at"@.len());
    assert("cut_type"@.len() != "updated_at"@.len());
    assert("cut_type"@.len() != "ontology_valid"@.len());
    assert("cut_type"@.len() != "version"@.len());
    assert("cut_type"@.len() != "topological_rank"@.len());
    assert("cut_type"@.len() != "source_pipeline"@.len());
    assert("cut_type"@.len() != "source_task"@.len());
    assert("cut_type"@.len() != "source_node_set"@.len());
    assert("cut_type"@.len() != "source_content_hash"@.len());
    assert("cut_type"@.len() != "feedback_weight"@.len());
    assert("cut_type"@.len() != "importance_weight"@.len());
    reveal_strlit("ontology_uri");
    reveal_strlit("valid_to");
    reveal_strlit("belongs_to_set");
    reveal_strlit("source_user");
    assert("cut_type"@.len() != "ontology_uri"@.len());
    assert("cut_type"@[0] != "valid_to"@[0]);
    assert("cut_type"@.len() != "belongs_to_set"@.len());
    assert("cut_type"@.len() != "source_user"@.len());
}

proof fn document_id_is_no_origin()
    ensures
        !origin_key("document_id"@),
{
    reveal_strlit("document_id");
    reveal_strlit("created_at");
    reveal_strlit("updated_at");
    reveal_strlit("ontology_valid");
    reveal_strlit("version");
    reveal_strlit("topological_rank");
    reveal_strlit("source_pipeline");
    reveal_strlit("source_task");
    reveal_strlit("source_node_set");
    reveal_strlit("source_content_hash");
    reveal_strlit("feedback_weight");
    reveal_strlit("importance_weight");
    assert("document_id"@.len() != "created_at"@.len());
    assert("document_id"@.len() != "updated_at"@.len());
    assert("document_id"@.len() != "ontology_valid"@.len());
    assert("document_id"@.len() != "version"@.len());
    assert("document_id"@.len() != "topological_rank"@.len());
    assert("document_id"@.len() != "source_pipeline"@.len());
    assert("document_id"@[0] != "source_task"@[0]);
    assert("document_id"@.len() != "source_node_set"@.len());
    assert("document_id"@.len() != "source_content_hash"@.len());
    assert("document_id"@.len() != "feedback_weight"@.len());
    assert("document_id"@.len() != "importance_weight"@.len());
    reveal_strlit("ontology_uri");
    reveal_strlit("valid_to");
    reveal_strlit("belongs_to_set");
    reveal_strlit("source_user");
    assert("document_id"@.len() != "ontology_uri"@.len());
    assert("document_id"@.len() != "valid_to"@.len());
    assert("document_id"@.len() != "belongs_to_set"@.len());
    assert("document_id"@[0] != "source_user"@[0]);
}

proof fn document_name_is_no_origin()
    ensures
        !origin_key("document_name"@),
{
    reveal_strlit("document_name");
    reveal_strlit("created_at");
    reveal_strlit("updated_at");
    reveal_strlit("ontology_valid");
    reveal_strlit("version");
    reveal_strlit("topological_rank");
    reveal_strlit("source_pipeline");
    reveal_strlit("source_task");
    reveal_strlit("source_node_set");
    reveal_strlit("source_content_hash");
    reveal_strlit("feedback_weight");
    reveal_strlit("importance_weight");
    assert("document_name"@.len() != "created_at"@.len());
    assert("document_name"@.len() != "updated_at"@.len());
    assert("document_name"@.len() != "ontology_valid"@.len());
    assert("document_name"@.len() != "version"@.len());
    assert("document_name"@.len() != "topological_rank"@.len());
    assert("document_name"@.len() != "source_pipeline"@.len());
    assert("document_name"@.len() != "source_task"@.len());
    assert("document_name"@.len() != "source_node_set"@.len());
    assert("document_name"@.len() != "source_content_hash"@.len());
    assert("document_name"@.len() != "feedback_weight"@.len());
    assert("document_name"@.len() != "importance_weight"@.len());
    reveal_strlit("ontology_uri");
    reveal_strlit("valid_to");
    reveal_strlit("belongs_to_set");
    reveal_strlit("source_user");
    assert("document_name"@.len() != "ontology_uri"@.len());
    assert("document_name"@.len() != "valid_to"@.len());
    assert("document_name"@.len() != "belongs_to_set"@.len());
    assert("document_name"@.len() != "source_user"@.len());
}

proof fn truth_alignment_is_no_origin()
    ensures
        !origin_key("truth_alignment"@),
{
    reveal_strlit("truth_alignment");
    reveal_strlit("created_at");
    reveal_strlit("updated_at");
    reveal_strlit("ontology_valid");
    reveal_strlit("version");
    reveal_strlit("topological_rank");
    reveal_strlit("source_pipeline");
    reveal_strlit("source_task");
    reveal_strlit("source_node_set");
    reveal_strlit("source_content_hash");
    reveal_strlit("feedback_weight");
    reveal_strlit("importance_weight");
    assert("truth_alignment"@.len() != "created_at"@.len());
    assert("truth_alignment"@.len() != "updated_at"@.len());
    assert("truth_alignment"@.len() != "ontology_valid"@.len());
    assert("truth_alignment"@.len() != "version"@.len());
    assert("truth_alignment"@.len() != "topological_rank"@.len());
    assert("truth_alignment"@[0] != "source_pipeline"@[0]);
    assert("truth_alignment"@.len() != "source_task"@.len());
    assert("truth_alignment"@[0] != "source_node_set"@[0]);
    assert("truth_alignment"@.len() != "source_content_hash"@.len());
    assert("truth_alignment"@[0] != "feedback_weight"@[0]);
    assert("truth_alignment"@.len() != "importance_weight"@.len());
    reveal_strlit("ontology_uri");
    reveal_strlit("valid_to");
    reveal_strlit("belongs_to_set");
    reveal_strlit("source_user");
    assert("truth_alignment"@.len() != "ontology_uri"@.len());
    assert("truth_alignment"@.len() != "valid_to"@.len());
    assert("truth_alignment"@.len() != "belongs_to_set"@.len());
    assert("truth_alignment"@.len() != "source_user"@.len());
}

proof fn truth_epoch_is_no_origin()
    ensures
        !origin_key("truth_epoch"@),
{
    reveal_strlit("truth_epoch");
    reveal_strlit("created_at");
    reveal_strlit("updated_at");
    reveal_strlit("ontology_valid");
    reveal_strlit("version");
    reveal_strlit("topological_rank");
    reveal_strlit("source_pipeline");
    reveal_strlit("source_task");
    reveal_strlit("source_node_set");
    reveal_strlit("source_content_hash");
    reveal_strlit("feedback_weight");
    reveal_strlit("importance_weight");
    assert("truth_epoch"@.len() != "created_at"@.len());
    assert("truth_epoch"@.len() != "updated_at"@.len());
    assert("truth_epoch"@.len() != "ontology_valid"@.len());
    assert("truth_epoch"@.len() != "version"@.len());
    assert("truth_epoch"@.len() != "topological_rank"@.len());
    assert("truth_epoch"@.len() != "source_pipeline"@.len());
    assert("truth_epoch"@[0] != "source_task"@[0]);
    assert("truth_epoch"@.len() != "source_node_set"@.len());
    assert("truth_epoch"@.len() != "source_content_hash"@.len());
    assert("truth_epoch"@.len() != "feedback_weight"@.len());
    assert("truth_epoch"@.len() != "importance_weight"@.len());
    reveal_strlit("ontology_uri");
    reveal_strlit("valid_to");
    reveal_strlit("belongs_to_set");
    reveal_strlit("source_user");
    assert("truth_epoch"@.len() != "ontology_uri"@.len());
    assert("truth_epoch"@.len() != "valid_to"@.len());
    assert("truth_epoch"@.len() != "belongs_to_set"@.len());
    assert("truth_epoch"@[0] != "source_user"@[0]);
}

proof fn source_chunk_id_is_no_origin()
    ensures
        !origin_key("source_chunk_id"@),
{
    reveal_strlit("source_chunk_id");
    reveal_strlit("created_at");
    reveal_strlit("updated_at");
    reveal_strlit("ontology_valid");
    reveal_strlit("version");
    reveal_strlit("topological_rank");
    reveal_strlit("source_pipeline");
    reveal_strlit("source_task");
    reveal_strlit("source_node_set");
    reveal_strlit("source_content_hash");
    reveal_strlit("feedback_weight");
    reveal_strlit("importance_weight");
    assert("source_chunk_id"@.len() != "created_at"@.len());
    assert("source_chunk_id"@.len() != "updated_at"@.len());
    assert("source_chunk_id"@.len() != "ontology_valid"@.len());
    assert("source_chunk_id"@.len() != "version"@.len());
    assert("source_chunk_id"@.len() != "topological_rank"@.len());
    assert("source_chunk_id"@[7] != "source_pipeline"@[7]);
    assert("source_chunk_id"@.len() != "source_task"@.len());
    assert("source_chunk_id"@[7] != "source_node_set"@[7]);
    assert("source_chunk_id"@.len() != "source_content_hash"@.len());
    assert("source_chunk_id"@[0] != "feedback_weight"@[0]);
    assert("source_chunk_id"@.len() != "importance_weight"@.len());
    reveal_strlit("ontology_uri");
    reveal_strlit("valid_to");
    reveal_strlit("belongs_to_set");
    reveal_strlit("source_user");
    assert("source_chunk_id"@.len() != "ontology_uri"@.len());
    assert("source_chunk_id"@.len() != "valid_to"@.len());
    assert("source_chunk_id"@.len() != "belongs_to_set"@.len());
    assert("source_chunk_id"@.len() != "source_user"@.len());
}

proof fn summarized_in_is_no_origin()
    ensures
        !origin_key("summarized_in"@),
{
    reveal_strlit("summarized_in");
    reveal_strlit("created_at");
    reveal_strlit("updated_at");
    reveal_strlit("ontology_valid");
    reveal_strlit("version");
    reveal_strlit("topological_rank");
    reveal_strlit("source_pipeline");
    reveal_strlit("source_task");
    reveal_strlit("source_node_set");
    reveal_strlit("source_content_hash");
    reveal_strlit("feedback_weight");
    reveal_strlit("importance_weight");
    assert("summarized_in"@.len() != "created_at"@.len());
    assert("summarized_in"@.len() != "updated_at"@.len());
    assert("summarized_in"@.len() != "ontology_valid"@.len());
    assert("summarized_in"@.len() != "version"@.len());
    assert("summarized_in"@.len() != "topological_rank"@.len());
    assert("summarized_in"@.len() != "source_pipeline"@.len());
    assert("summarized_in"@.len() != "source_task"@.len());
    assert("summarized_in"@.len() != "source_node_set"@.len());
    assert("summarized_in"@.len() != "source_content_hash"@.len());
    assert("summarized_in"@.len() != "feedback_weight"@.len());
    assert("summarized_in"@.len() != "importance_weight"@.len());
    reveal_strlit("ontology_uri");
    reveal_strlit("valid_to");
    reveal_strlit("belongs_to_set");
    reveal_strlit("source_user");
    assert("summarized_in"@.len() != "ontology_uri"@.len());
    assert("summarized_in"@.len() != "valid_to"@.len());
    assert("summarized_in"@.len() != "belongs_to_set"@.len());
    assert("summarized_in"@.len() != "source_user"@.len());
}

proof fn global_context_bucket_id_is_no_origin()
    ensures
        !origin_key("global_context_bucket_id"@),
{
    reveal_strlit("global_context_bucket_id");
    reveal_strlit("created_at");
    reveal_strlit("updated_at");
    reveal_strlit("ontology_valid");
    reveal_strlit("version");
    reveal_strlit("topological_rank");
    reveal_strlit("source_pipeline");
    reveal_strlit("source_task");
    reveal_strlit("source_node_set");
    reveal_strlit("source_content_hash");
    reveal_strlit("feedback_weight");
    reveal_strlit("importance_weight");
    assert("global_context_bucket_id"@.len() != "created_at"@.len());
    assert("global_context_bucket_id"@.len() != "updated_at"@.len());
    assert("global_context_bucket_id"@.len() != "ontology_valid"@.len());
    assert("global_context_bucket_id"@.len() != "version"@.len());
    assert("global_context_bucket_id"@.len() != "topological_rank"@.len());
    assert("global_context_bucket_id"@.len() != "source_pipeline"@.len());
    assert("global_context_bucket_id"@.len() != "source_task"@.len());
    assert("global_context_bucket_id"@.len() != "source_node_set"@.len());
    assert("global_context_bucket_id"@.len() != "source_content_hash"@.len());
    assert("global_context_bucket_id"@.len() != "feedback_weight"@.len());
    assert("global_context_bucket_id"@.len() != "importance_weight"@.len());
    reveal_strlit("ontology_uri");
    reveal_strlit("valid_to");
    reveal_strlit("belongs_to_set");
    reveal_strlit("source_user");
    assert("global_context_bucket_id"@.len() != "ontology_uri"@.len());
    assert("global_context_bucket_id"@.len() != "valid_to"@.len());
    assert("global_context_bucket_id"@.len() != "belongs_to_set"@.len());
    assert("global_context_bucket_id"@.len() != "source_user"@.len());
}

proof fn description_is_no_origin()
    ensures
        !origin_key("description"@),
{
    reveal_strlit("description");
    reveal_strlit("created_at");
    reveal_strlit("updated_at");
    reveal_strlit("ontology_valid");
    reveal_strlit("version");
    reveal_strlit("topological_rank");
    reveal_strlit("source_pipeline");
    reveal_strlit("source_task");
    reveal_strlit("source_node_set");
    reveal_strlit("source_content_hash");
    reveal_strlit("feedback_weight");
    reveal_strlit("importance_weight");
    assert("description"@.len() != "created_at"@.len());
    assert("description"@.len() != "updated_at"@.len());
    assert("description"@.len() != "ontology_valid"@.len());
    assert("description"@.len() != "version"@.len());
    assert("description"@.len() != "topological_rank"@.len());
    assert("description"@.len() != "source_pipeline"@.len());
    assert("description"@[0] != "source_task"@[0]);
    assert("description"@.len() != "source_node_set"@.len());
    assert("description"@.len() != "source_content_hash"@.len());
    assert("description"@.len() != "feedback_weight"@.len());
    assert("description"@.len() != "importance_weight"@.len());
    reveal_strlit("ontology_uri");
    reveal_strlit("valid_to");
    reveal_strlit("belongs_to_set");
    reveal_strlit("source_user");
    assert("description"@.len() != "ontology_uri"@.len());
    assert("description"@.len() != "valid_to"@.len());
    assert("description"@.len() != "belongs_to_set"@.len());
    assert("description"@[0] != "source_user"@[0]);
}

proof fn relations_is_no_origin()
    ensures
        !origin_key("relations"@),
{
    reveal_strlit("relations");
    reveal_strlit("created_at");
    reveal_strlit("updated_at");
    reveal_strlit("ontology_valid");
    reveal_strlit("version");
    reveal_strlit("topological_rank");
    reveal_strlit("source_pipeline");
    reveal_strlit("source_task");
    reveal_strlit("source_node_set");
    reveal_strlit("source_content_hash");
    reveal_strlit("feedback_weight");
    reveal_strlit("importance_weight");
    assert("relations"@.len() != "created_at"@.len());
    assert("relations"@.len() != "updated_at"@.len());
    assert("relations"@.len() != "ontology_valid"@.len());
    assert("relations"@.len() != "version"@.len());
    assert("relations"@.len() != "topological_rank"@.len());
    assert("relations"@.len() != "source_pipeline"@.len());
    assert("relations"@.len() != "source_task"@.len());
    assert("relations"@.len() != "source_node_set"@.len());
    assert("relations"@.len() != "source_content_hash"@.len());
    assert("relations"@.len() != "feedback_weight"@.len());
    assert("relations"@.len() != "importance_weight"@.len());
    reveal_strlit("ontology_uri");
    reveal_strlit("valid_to");
    reveal_strlit("belongs_to_set");
    reveal_strlit("source_user");
    assert("relations"@.len() != "ontology_uri"@.len());
    assert("relations"@.len() != "valid_to"@.len());
    assert("relations"@.len() != "belongs_to_set"@.len());
    assert("relations"@.len() != "source_user"@.len());
}

proof fn truth_subspace_signature_is_no_origin()
    ensures
        !origin_key("truth_subspace_signature"@),
{
    reveal_strlit("truth_subspace_signature");
    reveal_strlit("created_at");
    reveal_strlit("updated_at");
    reveal_strlit("ontology_valid");
    reveal_strlit("version");
    reveal_strlit("topological_rank");
    reveal_strlit("source_pipeline");
    reveal_strlit("source_task");
    reveal_strlit("source_node_set");
    reveal_strlit("source_content_hash");
    reveal_strlit("feedback_weight");
    reveal_strlit("importance_weight");
    assert("truth_subspace_signature"@.len() != "created_at"@.len());
    assert("truth_subspace_signature"@.len() != "updated_at"@.len());
    assert("truth_subspace_signature"@.len() != "ontology_valid"@.len());
    assert("truth_subspace_signature"@.len() != "version"@.len());
    assert("truth_subspace_signature"@.len() != "topological_rank"@.len());
    assert("truth_subspace_signature"@.len() != "source_pipeline"@.len());
    assert("truth_subspace_signature"@.len() != "source_task"@.len());
    assert("truth_subspace_signature"@.len() != "source_node_set"@.len());
    assert("truth_subspace_signature"@.len() != "source_content_hash"@.len());
    assert("truth_subspace_signature"@.len() != "feedback_weight"@.len());
    assert("truth_subspace_signature"@.len() != "importance_weight"@.len());
    reveal_strlit("ontology_uri");
    reveal_strlit("valid_to");
    reveal_strlit("belongs_to_set");
    reveal_strlit("source_user");
    assert("truth_subspace_signature"@.len() != "ontology_uri"@.len());
    assert("truth_subspace_signature"@.len() != "valid_to"@.len());
    assert("truth_subspace_signature"@.len() != "belongs_to_set"@.len());
    assert("truth_subspace_signature"@.len() != "source_user"@.len());
}

/// What a point says of its origin.
pub open spec fn tells_origin(
    properties: Seq<(Seq<char>, Json)>,
    created_ms: int,
    rank: int,
    task: Seq<char>,
    hash: Json,
    dataset: Json,
) -> bool {
    &&& under(properties, "created_at"@) == Some(Json::Int(created_ms))
    &&& under(properties, "updated_at"@) == Some(Json::Int(created_ms))
    &&& under(properties, "ontology_valid"@) == Some(Json::Bool(false))
    &&& under(properties, "version"@) == Some(Json::Int(1))
    &&& under(properties, "topological_rank"@) == Some(Json::Int(rank))
    &&& under(properties, "source_pipeline"@) == Some(Json::Text("cognify_pipeline"@))
    &&& under(properties, "source_task"@) == Some(Json::Text(task))
    &&& under(properties, "source_node_set"@) == Some(dataset)
    &&& under(properties, "source_content_hash"@) == Some(hash)
    &&& under(properties, "feedback_weight"@) == Some(Json::Float(parsed_number("0.5"@)->0))
    &&& under(properties, "importance_weight"@) == Some(Json::Float(parsed_number("0.5"@)->0))
    &&& under(properties, "ontology_uri"@) == Some(Json::Null)
    &&& under(properties, "valid_to"@) == Some(Json::Null)
    &&& under(properties, "belongs_to_set"@) == Some(Json::Null)
    &&& under(properties, "source_user"@) == Some(Json::Null)
}

proof fn origin_is_read(
    ts: int,
    rank: int,
    index_fields: Seq<Seq<char>>,
    task: Seq<char>,
    hash: Option<Seq<char>>,
    set: Option<Seq<char>>,
    extras: Seq<(Seq<char>, Json)>,
)
    requires
        forall|i: int| 0 <= i < extras.len() ==> !origin_key((#[trigger] extras[i]).0),
    ensures
        tells_origin(
            set_all(base_fields(ts, rank, index_fields, task, hash, set), extras),
            ts,
            rank,
            task,
            match hash {
                Some(h) => Json::Text(h),
                None => Json::Null,
            },
            match set {
                Some(s) => Json::Text(s),
                None => Json::Null,
            },
        ),
{
    let base = base_fields(ts, rank, index_fields, task, hash, set);
    base_keys_are_distinct(ts, rank, index_fields, task, hash, set);
    assert(base[0].0 == "created_at"@);
    assert forall|j: int| 0 <= j < 0 implies (#[trigger] base[j]).0 != base[0].0 by {}
    field_is_read(base, 0);
    set_all_keeps_others(base, extras, "created_at"@);
    assert(base[1].0 == "updated_at"@);
    assert forall|j: int| 0 <= j < 1 implies (#[trigger] base[j]).0 != base[1].0 by {}
    field_is_read(base, 1);
    set_all_keeps_others(base, extras, "updated_at"@);
    assert(base[2].0 == "ontology_valid"@);
    assert forall|j: int| 0 <= j < 2 implies (#[trigger] base[j]).0 != base[2].0 by {}
    field_is_read(base, 2);
    set_all_keeps_others(base, extras, "ontology_valid"@);
    assert(base[4].0 == "version"@);
    assert forall|j: int| 0 <= j < 4 implies (#[trigger] base[j]).0 != base[4].0 by {}
    field_is_read(base, 4);
    set_all_keeps_others(base, extras, "version"@);
    assert(base[5].0 == "topological_rank"@);
    assert forall|j: int| 0 <= j < 5 implies (#[trigger] base[j]).0 != base[5].0 by {}
    field_is_read(base, 5);
    set_all_keeps_others(base, extras, "topological_rank"@);
    assert(base[9].0 == "source_pipeline"@);
    assert forall|j: int| 0 <= j < 9 implies (#[trigger] base[j]).0 != base[9].0 by {}
    field_is_read(base, 9);
    set_all_keeps_others(base, extras, "source_pipeline"@);
    assert(base[10].0 == "source_task"@);
    assert forall|j: int| 0 <= j < 10 implies (#[trigger] base[j]).0 != base[10].0 by {}
    field_is_read(base, 10);
    set_all_keeps_others(base, extras, "source_task"@);
    assert(base[11].0 == "source_node_set"@);
    assert forall|j: int| 0 <= j < 11 implies (#[trigger] base[j]).0 != base[11].0 by {}
    field_is_read(base, 11);
    set_all_keeps_others(base, extras, "source_node_set"@);
    assert(base[13].0 == "source_content_hash"@);
    assert forall|j: int| 0 <= j < 13 implies (#[trigger] base[j]).0 != base[13].0 by {}
    field_is_read(base, 13);
    set_all_keeps_others(base, extras, "source_content_hash"@);
    assert(base[14].0 == "feedback_weight"@);
    assert forall|j: int| 0 <= j < 14 implies (#[trigger] base[j]).0 != base[14].0 by {}
    field_is_read(base, 14);
    set_all_keeps_others(base, extras, "feedback_weight"@);
    assert(base[15].0 == "importance_weight"@);
    assert forall|j: int| 0 <= j < 15 implies (#[trigger] base[j]).0 != base[15].0 by {}
    field_is_read(base, 15);
    set_all_keeps_others(base, extras, "importance_weight"@);
    assert(base[3].0 == "ontology_uri"@);
    assert forall|j: int| 0 <= j < 3 implies (#[trigger] base[j]).0 != base[3].0 by {}
    field_is_read(base, 3);
    set_all_keeps_others(base, extras, "ontology_uri"@);
    assert(base[6].0 == "valid_to"@);
    assert forall|j: int| 0 <= j < 6 implies (#[trigger] base[j]).0 != base[6].0 by {}
    field_is_read(base, 6);
    set_all_keeps_others(base, extras, "valid_to"@);
    assert(base[8].0 == "belongs_to_set"@);
    assert forall|j: int| 0 <= j < 8 implies (#[trigger] base[j]).0 != base[8].0 by {}
    field_is_read(base, 8);
    set_all_keeps_others(base, extras, "belongs_to_set"@);
    assert(base[12].0 == "source_user"@);
    assert forall|j: int| 0 <= j < 12 implies (#[trigger] base[j]).0 != base[12].0 by {}
    field_is_read(base, 12);
    set_all_keeps_others(base, extras, "source_user"@);
}

/// The points of the document, of chunks and of summaries say when they were made
/// and from which text and dataset; each kind has its rank and its task.
pub proof fn points_of_the_text_tell_origin(
    src: SourceRow,
    ids: Seq<u128>,
    chunks: Seq<ChunkRow>,
    graphs: Seq<GraphFound>,
    summaries: Seq<Seq<char>>,
    k: int,
)
    requires
        0 <= k < chunks.len(),
        k < graphs.len(),
    ensures
        ({
            let points = points_of(built_of(src, ids, chunks, graphs, summaries));
            let hash = Json::Text(src.content_hash);
            let dataset = Json::Text(src.dataset_name);
            let at = src.created_ms;
            let cut = "extract_chunks_from_documents"@;
            &&& tells_origin(points[0].properties, at, 1, cut, hash, dataset)
            &&& tells_origin(points[2 * k + 1].properties, at, 2, cut, hash, dataset)
            &&& tells_origin(
                points[2 * k + 2].properties,
                at,
                3,
                "extract_graph_and_summarize"@,
                hash,
                dataset,
            )
        }),
{
    let n = crate::ingest::assemble::paired(chunks.len(), graphs.len());
    points_are_laid_out(src, ids, chunks, graphs, summaries, n);
    document_tells_origin(src);
    chunk_tells_origin(src, ids[k], chunks[k]);
    summary_tells_origin(
        src,
        ids[k],
        crate::ingest::assemble::summary_at(summaries, chunks[k].chunk_index),
    );
}

proof fn document_tells_origin(src: SourceRow)
    ensures
        tells_origin(
            document_point(src).properties,
            src.created_ms,
            1,
            "extract_chunks_from_documents"@,
            Json::Text(src.content_hash),
            Json::Text(src.dataset_name),
        ),
{
    raw_data_location_is_no_origin();
    external_metadata_is_no_origin();
    mime_type_is_no_origin();
    let extras = seq![
        ("raw_data_location"@, Json::Text("file://"@ + src.doc_name)),
        ("external_metadata"@, Json::Null),
        ("mime_type"@, Json::Text("text/plain"@)),
    ];
    origin_is_read(src.created_ms, 1, seq!["name"@], "extract_chunks_from_documents"@, Some(src.content_hash), Some(src.dataset_name), extras);
}

proof fn chunk_tells_origin(src: SourceRow, id: u128, chunk: ChunkRow)
    ensures
        tells_origin(
            chunk_point(src, id, chunk).properties,
            src.created_ms,
            2,
            "extract_chunks_from_documents"@,
            Json::Text(src.content_hash),
            Json::Text(src.dataset_name),
        ),
{
    text_is_no_origin();
    chunk_size_is_no_origin();
    chunk_index_is_no_origin();
    cut_type_is_no_origin();
    document_id_is_no_origin();
    document_name_is_no_origin();
    truth_alignment_is_no_origin();
    truth_epoch_is_no_origin();
    let extras = seq![
        ("text"@, Json::Text(chunk.text)),
        ("chunk_size"@, Json::Int(chunk.chunk_size as int)),
        ("chunk_index"@, Json::Int(chunk.chunk_index as int)),
        ("cut_type"@, Json::Text(chunk.cut_type)),
        ("document_id"@, Json::Text(uuid_text(src.document_id))),
        ("document_name"@, Json::Text(src.doc_name)),
        ("truth_alignment"@, Json::Null),
        ("truth_epoch"@, Json::Null),
    ];
    origin_is_read(src.created_ms, 2, seq!["text"@], "extract_chunks_from_documents"@, Some(src.content_hash), Some(src.dataset_name), extras);
}

proof fn summary_tells_origin(src: SourceRow, id: u128, summary: Seq<char>)
    ensures
        tells_origin(
            summary_point(src, id, summary).properties,
            src.created_ms,
            3,
            "extract_graph_and_summarize"@,
            Json::Text(src.content_hash),
            Json::Text(src.dataset_name),
        ),
{
    text_is_no_origin();
    source_chunk_id_is_no_origin();
    summarized_in_is_no_origin();
    global_context_bucket_id_is_no_origin();
    let extras = seq![
        ("text"@, Json::Text(summary)),
        ("source_chunk_id"@, Json::Text(uuid_text(id))),
        ("summarized_in"@, Json::Null),
        ("global_context_bucket_id"@, Json::Null),
    ];
    origin_is_read(src.created_ms, 3, seq!["text"@], "extract_graph_and_summarize"@, Some(src.content_hash), Some(src.dataset_name), extras);
}

proof fn type_tells_origin(src: SourceRow, n: NodeFound)
    ensures
        tells_origin(
            type_point(src, n).properties,
            src.created_ms,
            0,
            "extract_graph_from_data"@,
            Json::Null,
            Json::Null,
        ),
{
    description_is_no_origin();
    relations_is_no_origin();
    let extras = seq![
        ("description"@, Json::Text(name_form(crate::ingest::assemble::kind_of(n)))),
        ("relations"@, Json::List(Seq::empty())),
    ];
    origin_is_read(src.created_ms, 0, seq!["name"@], "extract_graph_from_data"@, None, None, extras);
}

proof fn entity_tells_origin(src: SourceRow, n: NodeFound)
    ensures
        tells_origin(
            entity_point(src, n).properties,
            src.created_ms,
            0,
            "extract_graph_from_data"@,
            Json::Null,
            Json::Null,
        ),
{
    description_is_no_origin();
    truth_alignment_is_no_origin();
    truth_subspace_signature_is_no_origin();
    truth_epoch_is_no_origin();
    let extras = seq![
        ("description"@, Json::Text(n.description)),
        ("truth_alignment"@, Json::Null),
        ("truth_subspace_signature"@, Json::Null),
        ("truth_epoch"@, Json::Null),
    ];
    origin_is_read(src.created_ms, 0, seq!["name"@], "extract_graph_from_data"@, None, None, extras);
}

// ---------------------------------------------------------------------------
// Entities and their types
// ---------------------------------------------------------------------------

/// What an entity that the model found goes by: its name, or its identifier where
/// the name is blank.
pub open spec fn goes_by(n: NodeFound) -> Seq<char> {
    if blank(n.name) {
        n.id
    } else {
        n.name
    }
}

/// What its type goes by.
pub open spec fn type_goes_by(n: NodeFound) -> Seq<char> {
    if blank(n.type_) {
        "Entity"@
    } else {
        n.type_
    }
}

/// No entity found earlier, in the first `k` chunks or before the position `j` of
/// the next, has the identifier.
pub open spec fn first_entity(graphs: Seq<GraphFound>, k: int, j: int, id: u128) -> bool {
    forall|k2: int, j2: int|
        #![trigger graphs[k2].nodes[j2]]
        0 <= k2 <= k && 0 <= j2 < graphs[k2].nodes.len() && (k2 < k || j2 < j) ==> entity_id_of(
            goes_by(graphs[k2].nodes[j2]),
        ) != id
}

/// No type found earlier has the identifier.
pub open spec fn first_type(graphs: Seq<GraphFound>, k: int, j: int, id: u128) -> bool {
    forall|k2: int, j2: int|
        #![trigger graphs[k2].nodes[j2]]
        0 <= k2 <= k && 0 <= j2 < graphs[k2].nodes.len() && (k2 < k || j2 < j)
            ==> entity_type_id_of(type_goes_by(graphs[k2].nodes[j2])) != id
}

proof fn no_entity_from_nodes(b: Built, src: SourceRow, cid: u128, nodes: Seq<NodeFound>, id: u128)
    requires
        !has_point(b.entities, id),
        forall|j: int| 0 <= j < nodes.len() ==> entity_id_of(goes_by(#[trigger] nodes[j])) != id,
    ensures
        !has_point(with_nodes(b, src, cid, nodes).entities, id),
    decreases nodes.len(),
{
    if nodes.len() > 0 {
        let head = nodes.drop_last();
        assert forall|j: int| 0 <= j < head.len() implies entity_id_of(goes_by(#[trigger] head[j]))
            != id by {
            assert(head[j] == nodes[j]);
        }
        no_entity_from_nodes(b, src, cid, head, id);
        assert(entity_id_of(goes_by(nodes[nodes.len() - 1])) != id);
        let before = with_nodes(b, src, cid, head).entities;
        let after = with_nodes(b, src, cid, nodes).entities;
        assert forall|i: int| 0 <= i < after.len() implies (#[trigger] after[i]).id != id by {
            if i < before.len() {
                assert(after[i] == before[i]);
            }
        }
    }
}

proof fn no_type_from_nodes(b: Built, src: SourceRow, cid: u128, nodes: Seq<NodeFound>, id: u128)
    requires
        !has_point(b.types, id),
        forall|j: int|
            0 <= j < nodes.len() ==> entity_type_id_of(type_goes_by(#[trigger] nodes[j])) != id,
    ensures
        !has_point(with_nodes(b, src, cid, nodes).types, id),
    decreases nodes.len(),
{
    if nodes.len() > 0 {
        let head = nodes.drop_last();
        assert forall|j: int| 0 <= j < head.len() implies entity_type_id_of(
            type_goes_by(#[trigger] head[j]),
        ) != id by {
            assert(head[j] == nodes[j]);
        }
        no_type_from_nodes(b, src, cid, head, id);
        assert(entity_type_id_of(type_goes_by(nodes[nodes.len() - 1])) != id);
        let before = with_nodes(b, src, cid, head).types;
        let after = with_nodes(b, src, cid, nodes).types;
        assert forall|i: int| 0 <= i < after.len() implies (#[trigger] after[i]).id != id by {
            if i < before.len() {
                assert(after[i] == before[i]);
            }
        }
    }
}

proof fn none_from_chunks(
    src: SourceRow,
    ids: Seq<u128>,
    chunks: Seq<ChunkRow>,
    graphs: Seq<GraphFound>,
    summaries: Seq<Seq<char>>,
    k: nat,
    id: u128,
)
    ensures
        first_entity(graphs, k as int, 0, id) ==> !has_point(
            with_chunks(built_start(src), src, ids, chunks, graphs, summaries, k).entities,
            id,
        ),
        first_type(graphs, k as int, 0, id) ==> !has_point(
            with_chunks(built_start(src), src, ids, chunks, graphs, summaries, k).types,
            id,
        ),
    decreases k,
{
    if k > 0 {
        let m = (k - 1) as nat;
        none_from_chunks(src, ids, chunks, graphs, summaries, m, id);
        let b = with_chunks(built_start(src), src, ids, chunks, graphs, summaries, m);
        let begun = chunk_begun(b, src, ids[k - 1], chunks[k - 1], summaries);
        let nodes = graphs[k - 1].nodes;
        if first_entity(graphs, k as int, 0, id) {
            assert forall|k2: int, j2: int|
                #![trigger graphs[k2].nodes[j2]]
                0 <= k2 <= m && 0 <= j2 < graphs[k2].nodes.len() && (k2 < m || j2
                    < 0) implies entity_id_of(goes_by(graphs[k2].nodes[j2])) != id by {}
            assert forall|j: int| 0 <= j < nodes.len() implies entity_id_of(
                goes_by(#[trigger] nodes[j]),
            ) != id by {
                assert(graphs[k - 1].nodes[j] == nodes[j]);
            }
            no_entity_from_nodes(begun, src, ids[k - 1], nodes, id);
        }
        if first_type(graphs, k as int, 0, id) {
            assert forall|k2: int, j2: int|
                #![trigger graphs[k2].nodes[j2]]
                0 <= k2 <= m && 0 <= j2 < graphs[k2].nodes.len() && (k2 < m || j2
                    < 0) implies entity_type_id_of(type_goes_by(graphs[k2].nodes[j2])) != id by {}
            assert forall|j: int| 0 <= j < nodes.len() implies entity_type_id_of(
                type_goes_by(#[trigger] nodes[j]),
            ) != id by {
                assert(graphs[k - 1].nodes[j] == nodes[j]);
            }
            no_type_from_nodes(begun, src, ids[k - 1], nodes, id);
        }
    }
}

/// What has been built once the first `j` entities of the chunk `k` are in.
spec fn upto(
    src: SourceRow,
    ids: Seq<u128>,
    chunks: Seq<ChunkRow>,
    graphs: Seq<GraphFound>,
    summaries: Seq<Seq<char>>,
    k: int,
    j: int,
) -> Built {
    with_nodes(
        chunk_begun(
            with_chunks(built_start(src), src, ids, chunks, graphs, summaries, k as nat),
            src,
            ids[k],
            chunks[k],
            summaries,
        ),
        src,
        ids[k],
        graphs[k].nodes.take(j),
    )
}

proof fn upto_grows(
    src: SourceRow,
    ids: Seq<u128>,
    chunks: Seq<ChunkRow>,
    graphs: Seq<GraphFound>,
    summaries: Seq<Seq<char>>,
    k: int,
    j: int,
)
    requires
        0 <= k < chunks.len(),
        k < graphs.len(),
        0 <= j <= graphs[k].nodes.len(),
    ensures
        grown(
            upto(src, ids, chunks, graphs, summaries, k, j),
            built_of(src, ids, chunks, graphs, summaries),
        ),
{
    let n = crate::ingest::assemble::paired(chunks.len(), graphs.len());
    let b = with_chunks(built_start(src), src, ids, chunks, graphs, summaries, k as nat);
    let begun = chunk_begun(b, src, ids[k], chunks[k], summaries);
    let nodes = graphs[k].nodes;
    nodes_grow(begun, src, ids[k], nodes, j);
    let named = with_nodes(begun, src, ids[k], nodes);
    relations_grow(named.edges, src, nodes, graphs[k].edges, 0);
    let next = with_chunks(built_start(src), src, ids, chunks, graphs, summaries, (k + 1) as nat);
    assert(next == with_chunk(b, src, ids[k], chunks[k], graphs[k], summaries));
    assert(next == (Built {
        edges: with_relations(named.edges, src, nodes, graphs[k].edges),
        ..named
    }));
    chunks_grow(src, ids, chunks, graphs, summaries, (k + 1) as nat, n);
}

proof fn entity_point_reads(src: SourceRow, n: NodeFound)
    ensures
        ({
            let p = entity_point(src, n);
            &&& p.id == entity_id_of(goes_by(n))
            &&& p.type_ == "Entity"@
            &&& p.name == Some(name_form(goes_by(n)))
            &&& p.index_fields == seq!["name"@]
            &&& p.embeddable_text == name_form(goes_by(n))
            &&& under(p.properties, "description"@) == Some(Json::Text(n.description))
        }),
{
    let extras = seq![
        ("description"@, Json::Text(n.description)),
        ("truth_alignment"@, Json::Null),
        ("truth_subspace_signature"@, Json::Null),
        ("truth_epoch"@, Json::Null),
    ];
    let base = base_fields(
        src.created_ms,
        0,
        seq!["name"@],
        "extract_graph_from_data"@,
        None,
        None,
    );
    assert(entity_point(src, n).properties == set_all(base, extras));
    entity_keys_differ();
    set_is_read(base, extras, 0);
}

proof fn type_point_reads(src: SourceRow, n: NodeFound)
    ensures
        ({
            let p = type_point(src, n);
            &&& p.id == entity_type_id_of(type_goes_by(n))
            &&& p.type_ == "EntityType"@
            &&& p.name == Some(name_form(type_goes_by(n)))
            &&& p.index_fields == seq!["name"@]
            &&& p.embeddable_text == name_form(type_goes_by(n))
            &&& under(p.properties, "description"@) == Some(
                Json::Text(name_form(type_goes_by(n))),
            )
        }),
{
    let extras = seq![
        ("description"@, Json::Text(name_form(type_goes_by(n)))),
        ("relations"@, Json::List(Seq::empty())),
    ];
    let base = base_fields(
        src.created_ms,
        0,
        seq!["name"@],
        "extract_graph_from_data"@,
        None,
        None,
    );
    assert(type_point(src, n).properties == set_all(base, extras));
    type_keys_differ();
    set_is_read(base, extras, 0);
}

proof fn entity_keys_differ()
    ensures
        "description"@ != "truth_alignment"@,
        "description"@ != "truth_subspace_signature"@,
        "description"@ != "truth_epoch"@,
        "truth_alignment"@ != "truth_subspace_signature"@,
        "truth_alignment"@ != "truth_epoch"@,
        "truth_subspace_signature"@ != "truth_epoch"@,
{
    reveal_strlit("description");
    reveal_strlit("truth_alignment");
    reveal_strlit("truth_subspace_signature");
    reveal_strlit("truth_epoch");
    assert("description"@.len() != "truth_alignment"@.len());
    assert("description"@.len() != "truth_subspace_signature"@.len());
    assert("description"@[0] != "truth_epoch"@[0]);
    assert("truth_alignment"@.len() != "truth_subspace_signature"@.len());
    assert("truth_alignment"@.len() != "truth_epoch"@.len());
    assert("truth_subspace_signature"@.len() != "truth_epoch"@.len());
}

proof fn type_keys_differ()
    ensures
        "description"@ != "relations"@,
{
    reveal_strlit("description");
    reveal_strlit("relations");
    assert("description"@.len() != "relations"@.len());
}

/// An entity, met for the first time, gets a point: named and found by what it
/// goes by, and with the description that the model gave.
pub proof fn entity_is_kept(
    src: SourceRow,
    ids: Seq<u128>,
    chunks: Seq<ChunkRow>,
    graphs: Seq<GraphFound>,
    summaries: Seq<Seq<char>>,
    k: int,
    j: int,
)
    requires
        0 <= k < chunks.len(),
        k < graphs.len(),
        0 <= j < graphs[k].nodes.len(),
        first_entity(graphs, k, j, entity_id_of(goes_by(graphs[k].nodes[j]))),
    ensures
        exists|m: int|
            #![trigger points_of(built_of(src, ids, chunks, graphs, summaries))[m]]
            0 <= m < points_of(built_of(src, ids, chunks, graphs, summaries)).len() && {
                let p = points_of(built_of(src, ids, chunks, graphs, summaries))[m];
                let n = graphs[k].nodes[j];
                &&& p.id == entity_id_of(goes_by(n))
                &&& p.type_ == "Entity"@
                &&& p.name == Some(name_form(goes_by(n)))
                &&& p.index_fields == seq!["name"@]
                &&& p.embeddable_text == name_form(goes_by(n))
                &&& under(p.properties, "description"@) == Some(Json::Text(n.description))
                &&& tells_origin(
                    p.properties,
                    src.created_ms,
                    0,
                    "extract_graph_from_data"@,
                    Json::Null,
                    Json::Null,
                )
            },
{
    let n = graphs[k].nodes[j];
    let id = entity_id_of(goes_by(n));
    let nodes = graphs[k].nodes;
    let b = with_chunks(built_start(src), src, ids, chunks, graphs, summaries, k as nat);
    let begun = chunk_begun(b, src, ids[k], chunks[k], summaries);
    assert(first_entity(graphs, k, 0, id)) by {
        assert forall|k2: int, j2: int|
            #![trigger graphs[k2].nodes[j2]]
            0 <= k2 <= k && 0 <= j2 < graphs[k2].nodes.len() && (k2 < k || j2
                < 0) implies entity_id_of(goes_by(graphs[k2].nodes[j2])) != id by {}
    }
    none_from_chunks(src, ids, chunks, graphs, summaries, k as nat, id);
    let head = nodes.take(j);
    assert forall|i: int| 0 <= i < head.len() implies entity_id_of(goes_by(#[trigger] head[i]))
        != id by {
        assert(graphs[k].nodes[i] == head[i]);
    }
    no_entity_from_nodes(begun, src, ids[k], head, id);
    let before = upto(src, ids, chunks, graphs, summaries, k, j);
    let after = upto(src, ids, chunks, graphs, summaries, k, j + 1);
    assert(nodes.take(j + 1).drop_last() =~= head);
    assert(nodes.take(j + 1).last() == n);
    entity_point_reads(src, n);
    entity_tells_origin(src, n);
    assert(after.entities == before.entities.push(entity_point(src, n)));
    let at = before.entities.len() as int;
    upto_grows(src, ids, chunks, graphs, summaries, k, j + 1);
    let all = built_of(src, ids, chunks, graphs, summaries);
    assert(all.entities[at] == after.entities[at]);
    let m = all.points.len() + all.types.len() + at;
    assert(points_of(all)[m] == entity_point(src, n));
}

/// So does its type, met for the first time.
pub proof fn type_is_kept(
    src: SourceRow,
    ids: Seq<u128>,
    chunks: Seq<ChunkRow>,
    graphs: Seq<GraphFound>,
    summaries: Seq<Seq<char>>,
    k: int,
    j: int,
)
    requires
        0 <= k < chunks.len(),
        k < graphs.len(),
        0 <= j < graphs[k].nodes.len(),
        first_type(graphs, k, j, entity_type_id_of(type_goes_by(graphs[k].nodes[j]))),
    ensures
        exists|m: int|
            #![trigger points_of(built_of(src, ids, chunks, graphs, summaries))[m]]
            0 <= m < points_of(built_of(src, ids, chunks, graphs, summaries)).len() && {
                let p = points_of(built_of(src, ids, chunks, graphs, summaries))[m];
                let n = graphs[k].nodes[j];
                &&& p.id == entity_type_id_of(type_goes_by(n))
                &&& p.type_ == "EntityType"@
                &&& p.name == Some(name_form(type_goes_by(n)))
                &&& p.index_fields == seq!["name"@]
                &&& p.embeddable_text == name_form(type_goes_by(n))
                &&& under(p.properties, "description"@) == Some(
                    Json::Text(name_form(type_goes_by(n))),
                )
                &&& tells_origin(
                    p.properties,
                    src.created_ms,
                    0,
                    "extract_graph_from_data"@,
                    Json::Null,
                    Json::Null,
                )
            },
{
    let n = graphs[k].nodes[j];
    let id = entity_type_id_of(type_goes_by(n));
    let nodes = graphs[k].nodes;
    let b = with_chunks(built_start(src), src, ids, chunks, graphs, summaries, k as nat);
    let begun = chunk_begun(b, src, ids[k], chunks[k], summaries);
    assert(first_type(graphs, k, 0, id)) by {
        assert forall|k2: int, j2: int|
            #![trigger graphs[k2].nodes[j2]]
            0 <= k2 <= k && 0 <= j2 < graphs[k2].nodes.len() && (k2 < k || j2
                < 0) implies entity_type_id_of(type_goes_by(graphs[k2].nodes[j2])) != id by {}
    }
    none_from_chunks(src, ids, chunks, graphs, summaries, k as nat, id);
    let head = nodes.take(j);
    assert forall|i: int| 0 <= i < head.len() implies entity_type_id_of(
        type_goes_by(#[trigger] head[i]),
    ) != id by {
        assert(graphs[k].nodes[i] == head[i]);
    }
    no_type_from_nodes(begun, src, ids[k], head, id);
    let before = upto(src, ids, chunks, graphs, summaries, k, j);
    let after = upto(src, ids, chunks, graphs, summaries, k, j + 1);
    assert(nodes.take(j + 1).drop_last() =~= head);
    assert(nodes.take(j + 1).last() == n);
    type_point_reads(src, n);
    type_tells_origin(src, n);
    assert(after.types == before.types.push(type_point(src, n)));
    let at = before.types.len() as int;
    upto_grows(src, ids, chunks, graphs, summaries, k, j + 1);
    let all = built_of(src, ids, chunks, graphs, summaries);
    assert(all.types[at] == after.types[at]);
    let m = all.points.len() + at;
    assert(points_of(all)[m] == type_point(src, n));
}

// ---------------------------------------------------------------------------
// Edges
// ---------------------------------------------------------------------------

/// Some edge runs from `from` to `to` and is called `rel`.
pub open spec fn related(
    edges: Seq<RawEdgeRow>,
    from: Seq<char>,
    rel: Seq<char>,
    to: Seq<char>,
) -> bool {
    exists|i: int|
        0 <= i < edges.len() && (#[trigger] edges[i]).from_id == from && edges[i].to_id == to
            && edges[i].relationship_name == rel
}

proof fn kept_edge_relates(edges: Seq<RawEdgeRow>, i: int)
    requires
        0 <= i < edges.len(),
    ensures
        related(
            dedup_raw(edges),
            edges[i].from_id,
            edges[i].relationship_name,
            edges[i].to_id,
        ),
{
    crate::ingest::shape::dedup_raw_keeps_each_once(edges);
    assert(same_raw(edges[i], edges[i]));
    assert(has_raw(edges, edges[i]));
    assert(has_raw(dedup_raw(edges), edges[i]));
    let kept = dedup_raw(edges);
    let k = choose|k: int| 0 <= k < kept.len() && same_raw(#[trigger] kept[k], edges[i]);
    assert(kept[k].from_id == edges[i].from_id);
}

/// Every chunk is part of the document, and its summary is made from it.
pub proof fn chunks_hang_together(
    src: SourceRow,
    ids: Seq<u128>,
    chunks: Seq<ChunkRow>,
    graphs: Seq<GraphFound>,
    summaries: Seq<Seq<char>>,
    k: int,
)
    requires
        0 <= k < chunks.len(),
        k < graphs.len(),
    ensures
        ({
            let edges = dedup_raw(built_of(src, ids, chunks, graphs, summaries).edges);
            &&& related(
                edges,
                uuid_text(ids[k]),
                "is_part_of"@,
                uuid_text(src.document_id),
            )
            &&& related(
                edges,
                uuid_text(text_summary_id_of(ids[k])),
                "made_from"@,
                uuid_text(ids[k]),
            )
        }),
{
    let b = with_chunks(built_start(src), src, ids, chunks, graphs, summaries, k as nat);
    let begun = chunk_begun(b, src, ids[k], chunks[k], summaries);
    let all = built_of(src, ids, chunks, graphs, summaries);
    upto_grows(src, ids, chunks, graphs, summaries, k, 0);
    assert(graphs[k].nodes.take(0) =~= Seq::empty());
    assert(upto(src, ids, chunks, graphs, summaries, k, 0) == begun);
    let i = b.edges.len() as int;
    assert(all.edges[i] == begun.edges[i]);
    assert(all.edges[i + 1] == begun.edges[i + 1]);
    kept_edge_relates(all.edges, i);
    kept_edge_relates(all.edges, i + 1);
}

/// Every entity found in a chunk is contained in it and is of its type.
pub proof fn entities_hang_together(
    src: SourceRow,
    ids: Seq<u128>,
    chunks: Seq<ChunkRow>,
    graphs: Seq<GraphFound>,
    summaries: Seq<Seq<char>>,
    k: int,
    j: int,
)
    requires
        0 <= k < chunks.len(),
        k < graphs.len(),
        0 <= j < graphs[k].nodes.len(),
    ensures
        ({
            let edges = dedup_raw(built_of(src, ids, chunks, graphs, summaries).edges);
            let n = graphs[k].nodes[j];
            let entity = uuid_text(entity_id_of(goes_by(n)));
            &&& related(edges, uuid_text(ids[k]), "contains"@, entity)
            &&& related(edges, entity, "is_a"@, uuid_text(entity_type_id_of(type_goes_by(n))))
        }),
{
    let all = built_of(src, ids, chunks, graphs, summaries);
    let i = node_edges_at(src, ids, chunks, graphs, summaries, k, j);
    kept_edge_relates(all.edges, i);
    kept_edge_relates(all.edges, i + 1);
}

#[verifier::spinoff_prover]
#[verifier::rlimit(30)]
proof fn node_edges_at(
    src: SourceRow,
    ids: Seq<u128>,
    chunks: Seq<ChunkRow>,
    graphs: Seq<GraphFound>,
    summaries: Seq<Seq<char>>,
    k: int,
    j: int,
) -> (i: int)
    requires
        0 <= k < chunks.len(),
        k < graphs.len(),
        0 <= j < graphs[k].nodes.len(),
    ensures
        ({
            let edges = built_of(src, ids, chunks, graphs, summaries).edges;
            let n = graphs[k].nodes[j];
            let entity = entity_id_of(goes_by(n));
            let kind = entity_type_id_of(type_goes_by(n));
            &&& 0 <= i
            &&& i + 1 < edges.len()
            &&& edges[i] == raw_edge_of(entity, kind, "is_a"@, None, src.updated_at)
            &&& edges[i + 1] == raw_edge_of(
                ids[k],
                entity,
                "contains"@,
                crate::ingest::assemble::contains_extra(n),
                src.updated_at,
            )
        }),
{
    let n = graphs[k].nodes[j];
    let nodes = graphs[k].nodes;
    let before = upto(src, ids, chunks, graphs, summaries, k, j);
    let after = upto(src, ids, chunks, graphs, summaries, k, j + 1);
    assert(nodes.take(j + 1).drop_last() =~= nodes.take(j));
    assert(nodes.take(j + 1).last() == n);
    upto_grows(src, ids, chunks, graphs, summaries, k, j + 1);
    let all = built_of(src, ids, chunks, graphs, summaries);
    let i = before.edges.len() as int;
    assert(all.edges[i] == after.edges[i]);
    assert(all.edges[i + 1] == after.edges[i + 1]);
    i
}

/// The node at `a` is the first that the model gave the identifier `key`.
pub open spec fn named_first(nodes: Seq<NodeFound>, a: int, key: Seq<char>) -> bool {
    &&& 0 <= a < nodes.len()
    &&& nodes[a].id == key
    &&& forall|j: int| 0 <= j < a ==> (#[trigger] nodes[j]).id != key
}

proof fn first_is_named(nodes: Seq<NodeFound>, a: int, key: Seq<char>)
    requires
        named_first(nodes, a, key),
    ensures
        entity_named(nodes, key) == Some(entity_id_of(goes_by(nodes[a]))),
    decreases nodes.len(),
{
    let head = nodes.drop_last();
    if a < head.len() {
        assert(named_first(head, a, key)) by {
            assert forall|j: int| 0 <= j < a implies (#[trigger] head[j]).id != key by {
                assert(head[j] == nodes[j]);
            }
        }
        first_is_named(head, a, key);
    } else {
        assert forall|j: int| 0 <= j < head.len() implies (#[trigger] head[j]).id != key by {
            assert(head[j] == nodes[j]);
        }
        none_is_named(head, key);
    }
}

proof fn none_is_named(nodes: Seq<NodeFound>, key: Seq<char>)
    requires
        forall|j: int| 0 <= j < nodes.len() ==> (#[trigger] nodes[j]).id != key,
    ensures
        entity_named(nodes, key) is None,
    decreases nodes.len(),
{
    if nodes.len() > 0 {
        let head = nodes.drop_last();
        assert forall|j: int| 0 <= j < head.len() implies (#[trigger] head[j]).id != key by {
            assert(head[j] == nodes[j]);
        }
        assert(nodes[nodes.len() - 1].id != key);
        none_is_named(head, key);
    }
}

proof fn relation_at(
    src: SourceRow,
    ids: Seq<u128>,
    chunks: Seq<ChunkRow>,
    graphs: Seq<GraphFound>,
    summaries: Seq<Seq<char>>,
    k: int,
    m: int,
    a: int,
    b: int,
) -> (i: int)
    requires
        0 <= k < chunks.len(),
        k < graphs.len(),
        0 <= m < graphs[k].edges.len(),
        named_first(graphs[k].nodes, a, graphs[k].edges[m].source_node_id),
        named_first(graphs[k].nodes, b, graphs[k].edges[m].target_node_id),
    ensures
        ({
            let edges = built_of(src, ids, chunks, graphs, summaries).edges;
            let e = graphs[k].edges[m];
            &&& 0 <= i < edges.len()
            &&& edges[i] == raw_edge_of(
                entity_id_of(goes_by(graphs[k].nodes[a])),
                entity_id_of(goes_by(graphs[k].nodes[b])),
                normal_form(e.relationship_name),
                Some(crate::ingest::assemble::relation_extra(e)),
                src.updated_at,
            )
        }),
{
    let n = crate::ingest::assemble::paired(chunks.len(), graphs.len());
    let was = with_chunks(built_start(src), src, ids, chunks, graphs, summaries, k as nat);
    let begun = chunk_begun(was, src, ids[k], chunks[k], summaries);
    let nodes = graphs[k].nodes;
    let found = graphs[k].edges;
    let named = with_nodes(begun, src, ids[k], nodes);
    let e = found[m];
    first_is_named(nodes, a, e.source_node_id);
    first_is_named(nodes, b, e.target_node_id);
    let before = with_relations(named.edges, src, nodes, found.take(m));
    let after = with_relations(named.edges, src, nodes, found.take(m + 1));
    assert(found.take(m + 1).drop_last() =~= found.take(m));
    assert(found.take(m + 1).last() == e);
    let i = before.len() as int;
    relations_grow(named.edges, src, nodes, found, m + 1);
    let next = with_chunks(built_start(src), src, ids, chunks, graphs, summaries, (k + 1) as nat);
    assert(next == with_chunk(was, src, ids[k], chunks[k], graphs[k], summaries));
    assert(next.edges == with_relations(named.edges, src, nodes, found));
    assert(next.edges[i] == after[i]);
    chunks_grow(src, ids, chunks, graphs, summaries, (k + 1) as nat, n);
    assert(built_of(src, ids, chunks, graphs, summaries).edges[i] == next.edges[i]);
    i
}

/// A relation that the model found between two entities of a chunk runs between
/// them, under the normal form of its name.
pub proof fn relation_is_kept(
    src: SourceRow,
    ids: Seq<u128>,
    chunks: Seq<ChunkRow>,
    graphs: Seq<GraphFound>,
    summaries: Seq<Seq<char>>,
    k: int,
    m: int,
    a: int,
    b: int,
)
    requires
        0 <= k < chunks.len(),
        k < graphs.len(),
        0 <= m < graphs[k].edges.len(),
        named_first(graphs[k].nodes, a, graphs[k].edges[m].source_node_id),
        named_first(graphs[k].nodes, b, graphs[k].edges[m].target_node_id),
    ensures
        related(
            dedup_raw(built_of(src, ids, chunks, graphs, summaries).edges),
            uuid_text(entity_id_of(goes_by(graphs[k].nodes[a]))),
            normal_form(graphs[k].edges[m].relationship_name),
            uuid_text(entity_id_of(goes_by(graphs[k].nodes[b]))),
        ),
{
    let i = relation_at(src, ids, chunks, graphs, summaries, k, m, a, b);
    kept_edge_relates(built_of(src, ids, chunks, graphs, summaries).edges, i);
}

/// Of edges that are the same, the first is kept as it is.
pub proof fn first_edge_is_kept(edges: Seq<RawEdgeRow>, i: int)
    requires
        0 <= i < edges.len(),
        forall|j: int|
            0 <= j < i ==> !((#[trigger] edges[j]).from_id == edges[i].from_id && edges[j].to_id
                == edges[i].to_id && edges[j].relationship_name == edges[i].relationship_name),
    ensures
        dedup_raw(edges).contains(edges[i]),
    decreases edges.len(),
{
    let head = edges.drop_last();
    let before = dedup_raw(head);
    let after = dedup_raw(edges);
    if i < head.len() {
        assert forall|j: int| 0 <= j < i implies !((#[trigger] head[j]).from_id == head[i].from_id
            && head[j].to_id == head[i].to_id && head[j].relationship_name
            == head[i].relationship_name) by {
            assert(head[j] == edges[j]);
        }
        first_edge_is_kept(head, i);
        let k = choose|k: int| 0 <= k < before.len() && before[k] == head[i];
        assert(after[k] == edges[i]);
    } else {
        crate::ingest::shape::dedup_raw_keeps_each_once(head);
        if has_raw(before, edges[i]) {
            assert(has_raw(head, edges[i]));
            let k = choose|k: int| 0 <= k < head.len() && same_raw(#[trigger] head[k], edges[i]);
            assert(head[k] == edges[k]);
        }
        assert(after[before.len() as int] == edges[i]);
    }
}

/// What an edge says of itself: where it runs, what it is called and when it was
/// written.
pub open spec fn tells_edge(
    e: RawEdgeRow,
    from: Seq<char>,
    to: Seq<char>,
    rel: Seq<char>,
    at: Seq<char>,
) -> bool {
    &&& e.from_id == from
    &&& e.to_id == to
    &&& e.relationship_name == rel
    &&& under(e.properties, "source_node_id"@) == Some(Json::Text(from))
    &&& under(e.properties, "target_node_id"@) == Some(Json::Text(to))
    &&& under(e.properties, "relationship_name"@) == Some(Json::Text(rel))
    &&& under(e.properties, "updated_at"@) == Some(Json::Text(at))
    &&& under(e.properties, "edge_object_id"@) == Some(
        Json::Text(uuid_text(crate::ingest::ids::edge_object_id_of(from, rel, to))),
    )
    &&& under(e.properties, "feedback_weight"@) == Some(Json::Float(parsed_number("0.5"@)->0))
}

proof fn edge_keys_differ()
    ensures
        "source_node_id"@ != "target_node_id"@,
        "source_node_id"@ != "relationship_name"@,
        "source_node_id"@ != "updated_at"@,
        "source_node_id"@ != "relationship_type"@,
        "source_node_id"@ != "edge_text"@,
        "source_node_id"@ != "edge_object_id"@,
        "source_node_id"@ != "feedback_weight"@,
        "target_node_id"@ != "relationship_name"@,
        "target_node_id"@ != "updated_at"@,
        "target_node_id"@ != "relationship_type"@,
        "target_node_id"@ != "edge_text"@,
        "target_node_id"@ != "edge_object_id"@,
        "target_node_id"@ != "feedback_weight"@,
        "relationship_name"@ != "updated_at"@,
        "relationship_name"@ != "relationship_type"@,
        "relationship_name"@ != "edge_text"@,
        "relationship_name"@ != "edge_object_id"@,
        "relationship_name"@ != "feedback_weight"@,
        "updated_at"@ != "relationship_type"@,
        "updated_at"@ != "edge_text"@,
        "updated_at"@ != "edge_object_id"@,
        "updated_at"@ != "feedback_weight"@,
        "relationship_type"@ != "edge_text"@,
        "relationship_type"@ != "edge_object_id"@,
        "relationship_type"@ != "feedback_weight"@,
        "edge_text"@ != "edge_object_id"@,
        "edge_text"@ != "feedback_weight"@,
        "edge_object_id"@ != "feedback_weight"@,
{
    reveal_strlit("source_node_id");
    reveal_strlit("target_node_id");
    reveal_strlit("relationship_name");
    reveal_strlit("updated_at");
    reveal_strlit("relationship_type");
    reveal_strlit("edge_text");
    reveal_strlit("edge_object_id");
    reveal_strlit("feedback_weight");
    assert("source_node_id"@[0] != "target_node_id"@[0]);
    assert("source_node_id"@.len() != "relationship_name"@.len());
    assert("source_node_id"@.len() != "updated_at"@.len());
    assert("source_node_id"@.len() != "relationship_type"@.len());
    assert("source_node_id"@.len() != "edge_text"@.len());
    assert("source_node_id"@[0] != "edge_object_id"@[0]);
    assert("source_node_id"@.len() != "feedback_weight"@.len());
    assert("target_node_id"@.len() != "relationship_name"@.len());
    assert("target_node_id"@.len() != "updated_at"@.len());
    assert("target_node_id"@.len() != "relationship_type"@.len());
    assert("target_node_id"@.len() != "edge_text"@.len());
    assert("target_node_id"@[0] != "edge_object_id"@[0]);
    assert("target_node_id"@.len() != "feedback_weight"@.len());
    assert("relationship_name"@.len() != "updated_at"@.len());
    assert("relationship_name"@[13] != "relationship_type"@[13]);
    assert("relationship_name"@.len() != "edge_text"@.len());
    assert("relationship_name"@.len() != "edge_object_id"@.len());
    assert("relationship_name"@.len() != "feedback_weight"@.len());
    assert("updated_at"@.len() != "relationship_type"@.len());
    assert("updated_at"@.len() != "edge_text"@.len());
    assert("updated_at"@.len() != "edge_object_id"@.len());
    assert("updated_at"@.len() != "feedback_weight"@.len());
    assert("relationship_type"@.len() != "edge_text"@.len());
    assert("relationship_type"@.len() != "edge_object_id"@.len());
    assert("relationship_type"@.len() != "feedback_weight"@.len());
    assert("edge_text"@.len() != "edge_object_id"@.len());
    assert("edge_text"@.len() != "feedback_weight"@.len());
    assert("edge_object_id"@.len() != "feedback_weight"@.len());
}

proof fn edge_fields_read(
    from: Seq<char>,
    to: Seq<char>,
    rel: Seq<char>,
    extra: Option<Json>,
    at: Seq<char>,
    key: Seq<char>,
)
    requires
        forall|i: int|
            #![trigger crate::ingest::datapoints::extra_fields(extra)[i]]
            0 <= i < crate::ingest::datapoints::extra_fields(extra).len() ==> {
                let f = crate::ingest::datapoints::extra_fields(extra)[i];
                f.0 == "relationship_type"@ || f.0 == "edge_text"@
            },
        key == "relationship_type"@ || key == "edge_text"@,
    ensures
        ({
            let fields = edge_fields(from, to, rel, extra, at);
            &&& under(fields, "source_node_id"@) == Some(Json::Text(from))
            &&& under(fields, "target_node_id"@) == Some(Json::Text(to))
            &&& under(fields, "relationship_name"@) == Some(Json::Text(rel))
            &&& under(fields, "updated_at"@) == Some(Json::Text(at))
            &&& under(fields, "edge_object_id"@) == Some(
                Json::Text(uuid_text(crate::ingest::ids::edge_object_id_of(from, rel, to))),
            )
            &&& under(fields, "feedback_weight"@) == Some(Json::Float(parsed_number("0.5"@)->0))
            &&& under(fields, key) == under(
                set_all(
                    crate::ingest::datapoints::edge_base(from, to, rel, at),
                    crate::ingest::datapoints::extra_fields(extra),
                ),
                key,
            )
        }),
{
    edge_keys_differ();
    let base = crate::ingest::datapoints::edge_base(from, to, rel, at);
    let extras = crate::ingest::datapoints::extra_fields(extra);
    let held = set_all(base, extras);
    let id = Json::Text(uuid_text(crate::ingest::ids::edge_object_id_of(from, rel, to)));
    let named = crate::json::with_field(held, "edge_object_id"@, id);
    field_set_is_read(held, "edge_object_id"@, id);
    field_set_is_read(named, "feedback_weight"@, half_json());
    field_set_keeps_others(named, "feedback_weight"@, half_json(), "edge_object_id"@);
    field_set_keeps_others(held, "edge_object_id"@, id, key);
    field_set_keeps_others(named, "feedback_weight"@, half_json(), key);
    assert(base[0].0 == "source_node_id"@);
    field_is_read(base, 0);
    set_all_keeps_others(base, extras, "source_node_id"@);
    field_set_keeps_others(held, "edge_object_id"@, id, "source_node_id"@);
    field_set_keeps_others(named, "feedback_weight"@, half_json(), "source_node_id"@);
    assert(base[1].0 == "target_node_id"@);
    field_is_read(base, 1);
    set_all_keeps_others(base, extras, "target_node_id"@);
    field_set_keeps_others(held, "edge_object_id"@, id, "target_node_id"@);
    field_set_keeps_others(named, "feedback_weight"@, half_json(), "target_node_id"@);
    assert(base[2].0 == "relationship_name"@);
    field_is_read(base, 2);
    set_all_keeps_others(base, extras, "relationship_name"@);
    field_set_keeps_others(held, "edge_object_id"@, id, "relationship_name"@);
    field_set_keeps_others(named, "feedback_weight"@, half_json(), "relationship_name"@);
    assert(base[3].0 == "updated_at"@);
    field_is_read(base, 3);
    set_all_keeps_others(base, extras, "updated_at"@);
    field_set_keeps_others(held, "edge_object_id"@, id, "updated_at"@);
    field_set_keeps_others(named, "feedback_weight"@, half_json(), "updated_at"@);
}

proof fn two_fields_filtered(a: (Seq<char>, Json), b: (Seq<char>, Json))
    ensures
        !(a.1 is Null) && !(b.1 is Null) ==> crate::ingest::datapoints::extra_fields(
            Some(Json::Object(seq![a, b])),
        ) == seq![a, b],
        !(a.1 is Null) && b.1 is Null ==> crate::ingest::datapoints::extra_fields(
            Some(Json::Object(seq![a, b])),
        ) == seq![a],
{
    let s = seq![a, b];
    let p = crate::ingest::datapoints::field_not_null();
    crate::lists::filter_ends(s, p);
    crate::lists::filter_step(s, 0, p);
    crate::lists::filter_step(s, 1, p);
    assert(s.take(2) =~= s);
    assert(s.take(0).filter(p).push(a) =~= seq![a]);
    assert(seq![a].push(b) =~= seq![a, b]);
}

/// The edge from a chunk to an entity says what the chunk mentions: the name of
/// the entity and its description.
#[verifier::spinoff_prover]
#[verifier::rlimit(30)]
pub proof fn mention_is_told(
    src: SourceRow,
    ids: Seq<u128>,
    chunks: Seq<ChunkRow>,
    graphs: Seq<GraphFound>,
    summaries: Seq<Seq<char>>,
    k: int,
    j: int,
)
    requires
        0 <= k < chunks.len(),
        k < graphs.len(),
        0 <= j < graphs[k].nodes.len(),
        !blank(graphs[k].nodes[j].description),
    ensures
        exists|i: int|
            #![trigger built_of(src, ids, chunks, graphs, summaries).edges[i]]
            0 <= i < built_of(src, ids, chunks, graphs, summaries).edges.len() && {
                let e = built_of(src, ids, chunks, graphs, summaries).edges[i];
                let n = graphs[k].nodes[j];
                &&& tells_edge(
                    e,
                    uuid_text(ids[k]),
                    uuid_text(entity_id_of(goes_by(n))),
                    "contains"@,
                    src.updated_at,
                )
                &&& under(e.properties, "edge_text"@) == Some(
                    Json::Text(
                        "Document chunk mentions "@ + name_form(goes_by(n)) + ": "@
                            + n.description,
                    ),
                )
                &&& under(e.properties, "relationship_type"@) == Some(Json::Text("contains"@))
            },
{
    let i = node_edges_at(src, ids, chunks, graphs, summaries, k, j);
    let n = graphs[k].nodes[j];
    let from = uuid_text(ids[k]);
    let to = uuid_text(entity_id_of(goes_by(n)));
    let text = "Document chunk mentions "@ + name_form(goes_by(n)) + ": "@ + n.description;
    let a = ("relationship_type"@, Json::Text("contains"@));
    let b = ("edge_text"@, Json::Text(text));
    let extra = Some(Json::Object(seq![a, b]));
    assert(crate::ingest::assemble::contains_extra(n) == extra);
    two_fields_filtered(a, b);
    edge_keys_differ();
    edge_fields_read(from, to, "contains"@, extra, src.updated_at, "edge_text"@);
    edge_fields_read(from, to, "contains"@, extra, src.updated_at, "relationship_type"@);
    let base = crate::ingest::datapoints::edge_base(from, to, "contains"@, src.updated_at);
    set_is_read(base, seq![a, b], 0);
    set_is_read(base, seq![a, b], 1);
    assert(built_of(src, ids, chunks, graphs, summaries).edges[i + 1].from_id == from);
}

/// The edge of a relation says what the model said of it.
#[verifier::spinoff_prover]
#[verifier::rlimit(30)]
pub proof fn relation_is_told(
    src: SourceRow,
    ids: Seq<u128>,
    chunks: Seq<ChunkRow>,
    graphs: Seq<GraphFound>,
    summaries: Seq<Seq<char>>,
    k: int,
    m: int,
    a: int,
    b: int,
)
    requires
        0 <= k < chunks.len(),
        k < graphs.len(),
        0 <= m < graphs[k].edges.len(),
        named_first(graphs[k].nodes, a, graphs[k].edges[m].source_node_id),
        named_first(graphs[k].nodes, b, graphs[k].edges[m].target_node_id),
    ensures
        exists|i: int|
            #![trigger built_of(src, ids, chunks, graphs, summaries).edges[i]]
            0 <= i < built_of(src, ids, chunks, graphs, summaries).edges.len() && {
                let e = built_of(src, ids, chunks, graphs, summaries).edges[i];
                let found = graphs[k].edges[m];
                let rel = normal_form(found.relationship_name);
                &&& tells_edge(
                    e,
                    uuid_text(entity_id_of(goes_by(graphs[k].nodes[a]))),
                    uuid_text(entity_id_of(goes_by(graphs[k].nodes[b]))),
                    rel,
                    src.updated_at,
                )
                &&& under(e.properties, "relationship_type"@) == Some(Json::Text(rel))
                &&& under(e.properties, "edge_text"@) == (match found.description {
                    Some(d) => Some(Json::Text(d)),
                    None => None,
                })
            },
{
    let i = relation_at(src, ids, chunks, graphs, summaries, k, m, a, b);
    let found = graphs[k].edges[m];
    let from = uuid_text(entity_id_of(goes_by(graphs[k].nodes[a])));
    let to = uuid_text(entity_id_of(goes_by(graphs[k].nodes[b])));
    let rel = normal_form(found.relationship_name);
    let x = ("relationship_type"@, Json::Text(rel));
    let y = (
        "edge_text"@,
        match found.description {
            Some(d) => Json::Text(d),
            None => Json::Null,
        },
    );
    let extra = Some(Json::Object(seq![x, y]));
    assert(crate::ingest::assemble::relation_extra(found) == Json::Object(seq![x, y]));
    two_fields_filtered(x, y);
    edge_keys_differ();
    let held = crate::ingest::datapoints::extra_fields(extra);
    edge_fields_read(from, to, rel, extra, src.updated_at, "edge_text"@);
    edge_fields_read(from, to, rel, extra, src.updated_at, "relationship_type"@);
    let base = crate::ingest::datapoints::edge_base(from, to, rel, src.updated_at);
    set_is_read(base, held, 0);
    if found.description is Some {
        set_is_read(base, held, 1);
    } else {
        set_all_keeps_others(base, held, "edge_text"@);
        key_index_is_first(base, "edge_text"@);
    }
    assert(built_of(src, ids, chunks, graphs, summaries).edges[i].from_id == from);
}

} // verus!
