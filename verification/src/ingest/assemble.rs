//! From chunks and what the model found in them to data points, edges and the
//! rows of the graph.

use vstd::hash_map::StringHashMap;
use vstd::prelude::*;
use vstd::string::*;

use crate::ingest::chunk::{chunk_views, Chunk, ChunkRow};
use crate::ingest::datapoints::{
    copy_fields, datapoint_at, datapoint_of, edge_fields, edge_properties_at, extra_views,
    no_dashes, node_row_of, opt_doc, opt_doc_view, run_ref, run_ref_of, sole_list, source_ref,
    source_ref_of, text_doc, text_or_null, to_graph_node, Datapoint, DatapointRow,
};
use crate::ingest::extract::{
    graph_views, EdgeFound, ExtractedEdge, ExtractedGraph, ExtractedNode, GraphFound, NodeFound,
};
use crate::ingest::ids::{
    edge_name, entity_id, entity_id_of, entity_type_id, entity_type_id_of, name_form, node_name,
    normal_form, text_summary_id, text_summary_id_of,
};
use crate::ingest::points::{all_well_kept, points_are_well_kept, well_kept};
use crate::json::{
    doc_text, doc_view_parts, doc_views, field_set_keeps_unambiguous, field_views, json_text,
    member_text, parsed_json, parsed_number, put, readable, set_field, unambiguous,
    unambiguous_object, with_field, Doc, Fields, Json, Num,
};
use crate::pattern::{replace_char, replace_char_of};
use crate::storage::graph::{edge_views, node_views, EdgeRow, GraphEdge, GraphNode, NodeRow};
use crate::storage::refs::list_text;
use crate::text::{blank, concat2, concat3, is_blank, owned, same, str_views, views};
use crate::uid::{uuid_text, Uuid};

verus! {

// ---------------------------------------------------------------------------
// Edges before they are stored
// ---------------------------------------------------------------------------

/// An edge that is not yet a row: endpoints, relationship, properties.
pub type RawEdge = (String, String, String, Fields);

/// What a [`RawEdge`] holds.
pub struct RawEdgeRow {
    pub from_id: Seq<char>,
    pub to_id: Seq<char>,
    pub relationship_name: Seq<char>,
    pub properties: Seq<(Seq<char>, Json)>,
}

/// The view of an edge that is not yet a row.
pub open spec fn raw_view(e: RawEdge) -> RawEdgeRow {
    RawEdgeRow {
        from_id: e.0@,
        to_id: e.1@,
        relationship_name: e.2@,
        properties: field_views(e.3@),
    }
}

pub open spec fn raw_views(edges: Seq<RawEdge>) -> Seq<RawEdgeRow> {
    edges.map_values(|e: RawEdge| raw_view(e))
}

pub open spec fn point_views(points: Seq<Datapoint>) -> Seq<DatapointRow> {
    points.map_values(|p: Datapoint| p@)
}

/// Every data point's properties are unambiguous.
pub open spec fn points_valid(points: Seq<Datapoint>) -> bool {
    forall|i: int| 0 <= i < points.len() ==> (#[trigger] points[i]).valid()
}

/// The properties of every data point read back from their text.
pub open spec fn read_back(points: Seq<DatapointRow>) -> bool {
    forall|k: int|
        0 <= k < points.len() ==> parsed_json(
            json_text(Json::Object((#[trigger] points[k]).properties)),
        ) == Some(Json::Object(points[k].properties))
}

/// Every edge's properties are unambiguous.
pub open spec fn raw_valid(edges: Seq<RawEdge>) -> bool {
    forall|i: int|
        0 <= i < edges.len() ==> unambiguous(Json::Object(field_views((#[trigger] edges[i]).3@)))
}

/// The edge `rel` between two identifiers, changed at `at`.
pub open spec fn raw_edge_of(
    from: u128,
    to: u128,
    rel: Seq<char>,
    extra: Option<Json>,
    at: Seq<char>,
) -> RawEdgeRow {
    RawEdgeRow {
        from_id: uuid_text(from),
        to_id: uuid_text(to),
        relationship_name: rel,
        properties: edge_fields(uuid_text(from), uuid_text(to), rel, extra, at),
    }
}

/// The edge `rel` between two identifiers, changed at `at`.
fn edge_raw(from: Uuid, to: Uuid, rel: &str, extra: Option<Doc>, at: &str) -> (r: RawEdge)
    requires
        extra matches Some(d) ==> unambiguous(d@),
    ensures
        raw_view(r) == raw_edge_of(from.value, to.value, rel@, opt_doc_view(extra), at@),
        unambiguous(Json::Object(field_views(r.3@))),
{
    let f = from.to_string();
    let t = to.to_string();
    let props = edge_properties_at(f.as_str(), t.as_str(), rel, extra, at);
    (f, t, owned(rel), props)
}

// ---------------------------------------------------------------------------
// What one source gives
// ---------------------------------------------------------------------------

/// What all data points of one source share.
pub struct Source {
    pub document_id: Uuid,
    pub doc_name: String,
    pub content_hash: String,
    pub dataset_name: String,
    /// When the data points are created, in milliseconds since the epoch.
    pub created_ms: i64,
    /// When the edges are changed, as they keep it.
    pub updated_at: String,
}

/// What a [`Source`] holds.
pub struct SourceRow {
    pub document_id: u128,
    pub doc_name: Seq<char>,
    pub content_hash: Seq<char>,
    pub dataset_name: Seq<char>,
    pub created_ms: int,
    pub updated_at: Seq<char>,
}

impl Source {
    pub open spec fn view(&self) -> SourceRow {
        SourceRow {
            document_id: self.document_id.value,
            doc_name: self.doc_name@,
            content_hash: self.content_hash@,
            dataset_name: self.dataset_name@,
            created_ms: self.created_ms as int,
            updated_at: self.updated_at@,
        }
    }
}

/// The data point of the document.
pub open spec fn document_point(src: SourceRow) -> DatapointRow {
    datapoint_of(
        src.created_ms,
        src.document_id,
        "TextDocument"@,
        Some(src.doc_name),
        1,
        seq!["name"@],
        src.doc_name,
        seq![
            ("raw_data_location"@, Json::Text("file://"@ + src.doc_name)),
            ("external_metadata"@, Json::Null),
            ("mime_type"@, Json::Text("text/plain"@)),
        ],
        "extract_chunks_from_documents"@,
        Some(src.content_hash),
        Some(src.dataset_name),
    )
}

/// The data point of a chunk.
pub open spec fn chunk_point(src: SourceRow, id: u128, chunk: ChunkRow) -> DatapointRow {
    datapoint_of(
        src.created_ms,
        id,
        "DocumentChunk"@,
        None,
        2,
        seq!["text"@],
        chunk.text,
        seq![
            ("text"@, Json::Text(chunk.text)),
            ("chunk_size"@, Json::Int(chunk.chunk_size as int)),
            ("chunk_index"@, Json::Int(chunk.chunk_index as int)),
            ("cut_type"@, Json::Text(chunk.cut_type)),
            ("document_id"@, Json::Text(uuid_text(src.document_id))),
            ("document_name"@, Json::Text(src.doc_name)),
            ("truth_alignment"@, Json::Null),
            ("truth_epoch"@, Json::Null),
        ],
        "extract_chunks_from_documents"@,
        Some(src.content_hash),
        Some(src.dataset_name),
    )
}

/// The data point of the summary of a chunk.
pub open spec fn summary_point(src: SourceRow, chunk_id: u128, summary: Seq<char>) -> DatapointRow {
    datapoint_of(
        src.created_ms,
        text_summary_id_of(chunk_id),
        "TextSummary"@,
        None,
        3,
        seq!["text"@],
        summary,
        seq![
            ("text"@, Json::Text(summary)),
            ("source_chunk_id"@, Json::Text(uuid_text(chunk_id))),
            ("summarized_in"@, Json::Null),
            ("global_context_bucket_id"@, Json::Null),
        ],
        "extract_graph_and_summarize"@,
        Some(src.content_hash),
        Some(src.dataset_name),
    )
}

/// What an entity is called: its name, or its identifier where that is blank.
pub open spec fn label_of(n: NodeFound) -> Seq<char> {
    if blank(n.name) {
        n.id
    } else {
        n.name
    }
}

/// What an entity's type is called.
pub open spec fn kind_of(n: NodeFound) -> Seq<char> {
    if blank(n.type_) {
        "Entity"@
    } else {
        n.type_
    }
}

/// The data point of an entity's type.
pub open spec fn type_point(src: SourceRow, n: NodeFound) -> DatapointRow {
    datapoint_of(
        src.created_ms,
        entity_type_id_of(kind_of(n)),
        "EntityType"@,
        Some(name_form(kind_of(n))),
        0,
        seq!["name"@],
        name_form(kind_of(n)),
        seq![
            ("description"@, Json::Text(name_form(kind_of(n)))),
            ("relations"@, Json::List(Seq::empty())),
        ],
        "extract_graph_from_data"@,
        None,
        None,
    )
}

/// The data point of an entity.
pub open spec fn entity_point(src: SourceRow, n: NodeFound) -> DatapointRow {
    datapoint_of(
        src.created_ms,
        entity_id_of(label_of(n)),
        "Entity"@,
        Some(name_form(label_of(n))),
        0,
        seq!["name"@],
        name_form(label_of(n)),
        seq![
            ("description"@, Json::Text(n.description)),
            ("truth_alignment"@, Json::Null),
            ("truth_subspace_signature"@, Json::Null),
            ("truth_epoch"@, Json::Null),
        ],
        "extract_graph_from_data"@,
        None,
        None,
    )
}

/// What the edge from a chunk to an entity says besides its endpoints.
pub open spec fn contains_extra(n: NodeFound) -> Option<Json> {
    if blank(n.description) {
        None
    } else {
        Some(
            Json::Object(
                seq![
                    ("relationship_type"@, Json::Text("contains"@)),
                    (
                        "edge_text"@,
                        Json::Text(
                            "Document chunk mentions "@ + name_form(label_of(n)) + ": "@
                                + n.description,
                        ),
                    ),
                ],
            ),
        )
    }
}

/// What an edge between entities says besides its endpoints.
pub open spec fn relation_extra(e: EdgeFound) -> Json {
    Json::Object(
        seq![
            ("relationship_type"@, Json::Text(normal_form(e.relationship_name))),
            ("edge_text"@, text_or_null(e.description)),
        ],
    )
}

/// Makes the data point of the document.
fn make_document(src: &Source) -> (r: Datapoint)
    ensures
        r@ == document_point(src@),
        r.valid(),
        parsed_number("0.5"@) is Some,
{
    broadcast use doc_view_parts;

    let location = concat2("file://", src.doc_name.as_str());
    let mut extras: Vec<(&str, Doc)> = Vec::new();
    extras.push(("raw_data_location", Doc::Text(location)));
    extras.push(("external_metadata", Doc::Null));
    extras.push(("mime_type", text_doc("text/plain")));
    assert(extra_views(extras@) =~= seq![
        ("raw_data_location"@, Json::Text("file://"@ + src@.doc_name)),
        ("external_metadata"@, Json::Null),
        ("mime_type"@, Json::Text("text/plain"@)),
    ]);
    let index: [&str; 1] = ["name"];
    assert(str_views(index@) =~= seq!["name"@]);
    datapoint_at(
        src.created_ms,
        src.document_id,
        "TextDocument",
        Some(owned(src.doc_name.as_str())),
        1,
        &index,
        owned(src.doc_name.as_str()),
        extras,
        "extract_chunks_from_documents",
        Some(owned(src.content_hash.as_str())),
        Some(owned(src.dataset_name.as_str())),
    )
}

/// A count as a document.
fn count_doc(n: usize) -> (r: Doc)
    ensures
        r@ == Json::Int(n as int),
{
    Doc::Num(Num::Pos(n as u64))
}

/// Makes the data point of a chunk.
fn make_chunk(src: &Source, chunk: &Chunk) -> (r: Datapoint)
    ensures
        r@ == chunk_point(src@, chunk.id.value, chunk@),
        r.valid(),
{
    broadcast use doc_view_parts;

    let document = src.document_id.to_string();
    let mut extras: Vec<(&str, Doc)> = Vec::new();
    extras.push(("text", text_doc(chunk.text.as_str())));
    extras.push(("chunk_size", count_doc(chunk.chunk_size)));
    extras.push(("chunk_index", count_doc(chunk.chunk_index)));
    extras.push(("cut_type", text_doc(chunk.cut_type.as_str())));
    extras.push(("document_id", Doc::Text(document)));
    extras.push(("document_name", text_doc(src.doc_name.as_str())));
    extras.push(("truth_alignment", Doc::Null));
    extras.push(("truth_epoch", Doc::Null));
    assert(extra_views(extras@) =~= seq![
        ("text"@, Json::Text(chunk@.text)),
        ("chunk_size"@, Json::Int(chunk@.chunk_size as int)),
        ("chunk_index"@, Json::Int(chunk@.chunk_index as int)),
        ("cut_type"@, Json::Text(chunk@.cut_type)),
        ("document_id"@, Json::Text(uuid_text(src@.document_id))),
        ("document_name"@, Json::Text(src@.doc_name)),
        ("truth_alignment"@, Json::Null),
        ("truth_epoch"@, Json::Null),
    ]);
    let index: [&str; 1] = ["text"];
    assert(str_views(index@) =~= seq!["text"@]);
    datapoint_at(
        src.created_ms,
        chunk.id,
        "DocumentChunk",
        None,
        2,
        &index,
        owned(chunk.text.as_str()),
        extras,
        "extract_chunks_from_documents",
        Some(owned(src.content_hash.as_str())),
        Some(owned(src.dataset_name.as_str())),
    )
}

/// Makes the data point of the summary of a chunk.
fn make_summary(src: &Source, chunk_id: Uuid, summary: &str) -> (r: Datapoint)
    ensures
        r@ == summary_point(src@, chunk_id.value, summary@),
        r.valid(),
{
    broadcast use doc_view_parts;

    let mut extras: Vec<(&str, Doc)> = Vec::new();
    extras.push(("text", text_doc(summary)));
    extras.push(("source_chunk_id", Doc::Text(chunk_id.to_string())));
    extras.push(("summarized_in", Doc::Null));
    extras.push(("global_context_bucket_id", Doc::Null));
    assert(extra_views(extras@) =~= seq![
        ("text"@, Json::Text(summary@)),
        ("source_chunk_id"@, Json::Text(uuid_text(chunk_id.value))),
        ("summarized_in"@, Json::Null),
        ("global_context_bucket_id"@, Json::Null),
    ]);
    let index: [&str; 1] = ["text"];
    assert(str_views(index@) =~= seq!["text"@]);
    datapoint_at(
        src.created_ms,
        text_summary_id(chunk_id),
        "TextSummary",
        None,
        3,
        &index,
        owned(summary),
        extras,
        "extract_graph_and_summarize",
        Some(owned(src.content_hash.as_str())),
        Some(owned(src.dataset_name.as_str())),
    )
}

/// Makes the data point of the type called `kind`.
fn make_type(src: &Source, n: Ghost<NodeFound>, kind: &str, id: Uuid) -> (r: Datapoint)
    requires
        kind@ == kind_of(n@),
        id.value == entity_type_id_of(kind@),
    ensures
        r@ == type_point(src@, n@),
        r.valid(),
{
    broadcast use doc_view_parts;

    let name = node_name(kind);
    let none: Vec<Doc> = Vec::new();
    assert(doc_views(none@) =~= Seq::empty());
    let relations = Doc::List(none);
    assert(relations@ == Json::List(Seq::empty()));
    let mut extras: Vec<(&str, Doc)> = Vec::new();
    extras.push(("description", text_doc(name.as_str())));
    extras.push(("relations", relations));
    assert(extra_views(extras@) =~= seq![
        ("description"@, Json::Text(name_form(kind@))),
        ("relations"@, Json::List(Seq::empty())),
    ]);
    let index: [&str; 1] = ["name"];
    assert(str_views(index@) =~= seq!["name"@]);
    let label = owned(name.as_str());
    datapoint_at(
        src.created_ms,
        id,
        "EntityType",
        Some(label),
        0,
        &index,
        name,
        extras,
        "extract_graph_from_data",
        None,
        None,
    )
}

/// Makes the data point of an entity called `label`.
fn make_entity(src: &Source, n: &ExtractedNode, label: &str, id: Uuid) -> (r: Datapoint)
    requires
        label@ == label_of(n@),
        id.value == entity_id_of(label@),
    ensures
        r@ == entity_point(src@, n@),
        r.valid(),
{
    broadcast use doc_view_parts;

    let name = node_name(label);
    let mut extras: Vec<(&str, Doc)> = Vec::new();
    extras.push(("description", text_doc(n.description.as_str())));
    extras.push(("truth_alignment", Doc::Null));
    extras.push(("truth_subspace_signature", Doc::Null));
    extras.push(("truth_epoch", Doc::Null));
    assert(extra_views(extras@) =~= seq![
        ("description"@, Json::Text(n@.description)),
        ("truth_alignment"@, Json::Null),
        ("truth_subspace_signature"@, Json::Null),
        ("truth_epoch"@, Json::Null),
    ]);
    let index: [&str; 1] = ["name"];
    assert(str_views(index@) =~= seq!["name"@]);
    let shown = owned(name.as_str());
    datapoint_at(
        src.created_ms,
        id,
        "Entity",
        Some(shown),
        0,
        &index,
        name,
        extras,
        "extract_graph_from_data",
        None,
        None,
    )
}

/// Two fields under the two keys of an edge's description.
fn relation_doc(kind: &str, text: Doc) -> (r: Doc)
    requires
        unambiguous(text@),
    ensures
        r@ == Json::Object(
            seq![("relationship_type"@, Json::Text(kind@)), ("edge_text"@, text@)],
        ),
        unambiguous(r@),
{
    broadcast use doc_view_parts;

    let ghost said = text@;
    let mut fields: Fields = Vec::new();
    put(&mut fields, "relationship_type", text_doc(kind));
    put(&mut fields, "edge_text", text);
    let ghost all = seq![("relationship_type"@, Json::Text(kind@)), ("edge_text"@, said)];
    assert(field_views(fields@) =~= all);
    proof {
        reveal_strlit("relationship_type");
        reveal_strlit("edge_text");
        assert(all[0].0.len() != all[1].0.len());
        unambiguous_object(all);
    }
    Doc::Object(fields)
}

/// What the edge from a chunk to an entity says besides its endpoints.
fn make_contains_extra(n: &ExtractedNode, label: &str) -> (r: Option<Doc>)
    requires
        label@ == label_of(n@),
    ensures
        opt_doc_view(r) == contains_extra(n@),
        r matches Some(d) ==> unambiguous(d@),
{
    broadcast use doc_view_parts;

    if is_blank(n.description.as_str()) {
        return None;
    }
    let name = node_name(label);
    let head = concat3("Document chunk mentions ", name.as_str(), ": ");
    let text = concat2(head.as_str(), n.description.as_str());
    let doc = Doc::Text(text);
    Some(relation_doc("contains", doc))
}

/// What an edge between entities says besides its endpoints.
fn make_relation_extra(e: &ExtractedEdge, rel: &str) -> (r: Doc)
    requires
        rel@ == normal_form(e.relationship_name@),
    ensures
        r@ == relation_extra(e@),
        unambiguous(r@),
{
    broadcast use doc_view_parts;

    let text = opt_doc(&e.description);
    assert(unambiguous(text@));
    relation_doc(rel, text)
}

// ---------------------------------------------------------------------------
// Building data points and edges
// ---------------------------------------------------------------------------

/// What has been built so far: the points of the document, its chunks and
/// summaries, those of types and of entities, and the edges.
pub struct Built {
    pub points: Seq<DatapointRow>,
    pub types: Seq<DatapointRow>,
    pub entities: Seq<DatapointRow>,
    pub edges: Seq<RawEdgeRow>,
}

/// Some point has the identifier `id`.
pub open spec fn has_point(points: Seq<DatapointRow>, id: u128) -> bool {
    exists|i: int| 0 <= i < points.len() && (#[trigger] points[i]).id == id
}

/// The points with `p` at the end, unless its identifier is there already.
pub open spec fn add_point(points: Seq<DatapointRow>, p: DatapointRow) -> Seq<DatapointRow> {
    if has_point(points, p.id) {
        points
    } else {
        points.push(p)
    }
}

/// What one entity in a chunk adds: its type, itself, and the edges from it to
/// its type and from the chunk to it.
pub open spec fn with_node(b: Built, src: SourceRow, chunk_id: u128, n: NodeFound) -> Built {
    let entity = entity_id_of(label_of(n));
    let kind = entity_type_id_of(kind_of(n));
    Built {
        points: b.points,
        types: add_point(b.types, type_point(src, n)),
        entities: add_point(b.entities, entity_point(src, n)),
        edges: b.edges.push(raw_edge_of(entity, kind, "is_a"@, None, src.updated_at)).push(
            raw_edge_of(chunk_id, entity, "contains"@, contains_extra(n), src.updated_at),
        ),
    }
}

pub open spec fn with_nodes(
    b: Built,
    src: SourceRow,
    chunk_id: u128,
    nodes: Seq<NodeFound>,
) -> Built
    decreases nodes.len(),
{
    if nodes.len() == 0 {
        b
    } else {
        with_node(with_nodes(b, src, chunk_id, nodes.drop_last()), src, chunk_id, nodes.last())
    }
}

/// The entity that the first node with the identifier `key` stands for.
pub open spec fn entity_named(nodes: Seq<NodeFound>, key: Seq<char>) -> Option<u128>
    decreases nodes.len(),
{
    if nodes.len() == 0 {
        None
    } else {
        match entity_named(nodes.drop_last(), key) {
            Some(id) => Some(id),
            None => if nodes.last().id == key {
                Some(entity_id_of(label_of(nodes.last())))
            } else {
                None
            },
        }
    }
}

/// The edges with those that the model found between the entities of a chunk;
/// one whose endpoints it did not name is left out.
pub open spec fn with_relations(
    edges: Seq<RawEdgeRow>,
    src: SourceRow,
    nodes: Seq<NodeFound>,
    found: Seq<EdgeFound>,
) -> Seq<RawEdgeRow>
    decreases found.len(),
{
    if found.len() == 0 {
        edges
    } else {
        let before = with_relations(edges, src, nodes, found.drop_last());
        let e = found.last();
        match (entity_named(nodes, e.source_node_id), entity_named(nodes, e.target_node_id)) {
            (Some(from), Some(to)) => before.push(
                raw_edge_of(
                    from,
                    to,
                    normal_form(e.relationship_name),
                    Some(relation_extra(e)),
                    src.updated_at,
                ),
            ),
            _ => before,
        }
    }
}

/// The summary at a position; empty where there is none.
pub open spec fn summary_at(summaries: Seq<Seq<char>>, i: nat) -> Seq<char> {
    if i < summaries.len() {
        summaries[i as int]
    } else {
        Seq::empty()
    }
}

/// What one chunk adds.
pub open spec fn with_chunk(
    b: Built,
    src: SourceRow,
    id: u128,
    chunk: ChunkRow,
    graph: GraphFound,
    summaries: Seq<Seq<char>>,
) -> Built {
    let summary = summary_at(summaries, chunk.chunk_index);
    let begun = Built {
        points: b.points.push(chunk_point(src, id, chunk)).push(summary_point(src, id, summary)),
        edges: b.edges.push(
            raw_edge_of(id, src.document_id, "is_part_of"@, None, src.updated_at),
        ).push(raw_edge_of(text_summary_id_of(id), id, "made_from"@, None, src.updated_at)),
        ..b
    };
    let named = with_nodes(begun, src, id, graph.nodes);
    Built { edges: with_relations(named.edges, src, graph.nodes, graph.edges), ..named }
}

/// What the first `n` chunks add, each with the graph found in it.
pub open spec fn with_chunks(
    b: Built,
    src: SourceRow,
    ids: Seq<u128>,
    chunks: Seq<ChunkRow>,
    graphs: Seq<GraphFound>,
    summaries: Seq<Seq<char>>,
    n: nat,
) -> Built
    decreases n,
{
    if n == 0 {
        b
    } else {
        with_chunk(
            with_chunks(b, src, ids, chunks, graphs, summaries, (n - 1) as nat),
            src,
            ids[n - 1],
            chunks[n - 1],
            graphs[n - 1],
            summaries,
        )
    }
}

/// Two edges with the same endpoints and relationship.
pub open spec fn same_raw(a: RawEdgeRow, b: RawEdgeRow) -> bool {
    a.from_id == b.from_id && a.to_id == b.to_id && a.relationship_name == b.relationship_name
}

/// Some edge is the same as `e`.
pub open spec fn has_raw(edges: Seq<RawEdgeRow>, e: RawEdgeRow) -> bool {
    exists|i: int| 0 <= i < edges.len() && same_raw(#[trigger] edges[i], e)
}

/// The edges without those that stand earlier already.
pub open spec fn dedup_raw(edges: Seq<RawEdgeRow>) -> Seq<RawEdgeRow>
    decreases edges.len(),
{
    if edges.len() == 0 {
        edges
    } else {
        let before = dedup_raw(edges.drop_last());
        if has_raw(before, edges.last()) {
            before
        } else {
            before.push(edges.last())
        }
    }
}

/// What building starts from: the document.
pub open spec fn built_start(src: SourceRow) -> Built {
    Built {
        points: seq![document_point(src)],
        types: Seq::empty(),
        entities: Seq::empty(),
        edges: Seq::empty(),
    }
}

/// How many chunks have a graph.
pub open spec fn paired(chunks: nat, graphs: nat) -> nat {
    if chunks <= graphs {
        chunks
    } else {
        graphs
    }
}

/// All that one source gives.
pub open spec fn built_of(
    src: SourceRow,
    ids: Seq<u128>,
    chunks: Seq<ChunkRow>,
    graphs: Seq<GraphFound>,
    summaries: Seq<Seq<char>>,
) -> Built {
    with_chunks(
        built_start(src),
        src,
        ids,
        chunks,
        graphs,
        summaries,
        paired(chunks.len(), graphs.len()),
    )
}

/// The data points of one source: document, chunks and summaries, then types,
/// then entities.
pub open spec fn points_of(b: Built) -> Seq<DatapointRow> {
    b.points + b.types + b.entities
}

/// The identifiers of chunks.
pub open spec fn chunk_ids(chunks: Seq<Chunk>) -> Seq<u128> {
    chunks.map_values(|c: Chunk| c.id.value)
}

/// Whether some point has the identifier `id`.
fn contains_point(points: &Vec<Datapoint>, id: Uuid) -> (r: bool)
    ensures
        r == has_point(point_views(points@), id.value),
{
    let ghost all = point_views(points@);
    let mut i: usize = 0;
    while i < points.len()
        invariant
            i <= points@.len(),
            all == point_views(points@),
            forall|j: int| 0 <= j < i ==> (#[trigger] all[j]).id != id.value,
        decreases points@.len() - i,
    {
        if points[i].id.value == id.value {
            assert(all[i as int].id == id.value);
            return true;
        }
        i += 1;
    }
    false
}

/// Appends a data point.
fn push_point(points: &mut Vec<Datapoint>, p: Datapoint)
    requires
        points_valid(old(points)@),
        p.valid(),
    ensures
        point_views(final(points)@) == point_views(old(points)@).push(p@),
        points_valid(final(points)@),
{
    points.push(p);
    assert(point_views(points@) =~= point_views(old(points)@).push(p@));
}

/// Appends an edge.
fn push_raw(edges: &mut Vec<RawEdge>, e: RawEdge)
    requires
        raw_valid(old(edges)@),
        unambiguous(Json::Object(field_views(e.3@))),
    ensures
        raw_views(final(edges)@) == raw_views(old(edges)@).push(raw_view(e)),
        raw_valid(final(edges)@),
{
    edges.push(e);
    assert(raw_views(edges@) =~= raw_views(old(edges)@).push(raw_view(e)));
}

/// Adds what one entity in a chunk gives.
fn add_node(
    src: &Source,
    chunk_id: Uuid,
    n: &ExtractedNode,
    types: &mut Vec<Datapoint>,
    entities: &mut Vec<Datapoint>,
    edges: &mut Vec<RawEdge>,
    points: Ghost<Seq<DatapointRow>>,
) -> (r: Uuid)
    requires
        points_valid(old(types)@),
        points_valid(old(entities)@),
        raw_valid(old(edges)@),
    ensures
        r.value == entity_id_of(label_of(n@)),
        points_valid(final(types)@),
        points_valid(final(entities)@),
        raw_valid(final(edges)@),
        (Built {
            points: points@,
            types: point_views(final(types)@),
            entities: point_views(final(entities)@),
            edges: raw_views(final(edges)@),
        }) == with_node(
            Built {
                points: points@,
                types: point_views(old(types)@),
                entities: point_views(old(entities)@),
                edges: raw_views(old(edges)@),
            },
            src@,
            chunk_id.value,
            n@,
        ),
{
    let label = if is_blank(n.name.as_str()) {
        owned(n.id.as_str())
    } else {
        owned(n.name.as_str())
    };
    let kind = if is_blank(n.type_.as_str()) {
        owned("Entity")
    } else {
        owned(n.type_.as_str())
    };
    let type_id = entity_type_id(kind.as_str());
    if !contains_point(types, type_id) {
        let p = make_type(src, Ghost(n@), kind.as_str(), type_id);
        push_point(types, p);
    }
    let id = entity_id(label.as_str());
    if !contains_point(entities, id) {
        let p = make_entity(src, n, label.as_str(), id);
        push_point(entities, p);
    }
    let is_a = edge_raw(id, type_id, "is_a", None, src.updated_at.as_str());
    push_raw(edges, is_a);
    let extra = make_contains_extra(n, label.as_str());
    let contains = edge_raw(chunk_id, id, "contains", extra, src.updated_at.as_str());
    push_raw(edges, contains);
    id
}

/// The entity that the first node with the identifier `key` stands for.
fn find_entity(named: &Vec<(String, Uuid)>, nodes: Ghost<Seq<NodeFound>>, key: &str) -> (r: Option<
    Uuid,
>)
    requires
        named@.len() == nodes@.len(),
        forall|j: int|
            0 <= j < named@.len() ==> (#[trigger] named@[j]).0@ == nodes@[j].id && named@[j].1.value
                == entity_id_of(label_of(nodes@[j])),
    ensures
        match r {
            Some(id) => entity_named(nodes@, key@) == Some(id.value),
            None => entity_named(nodes@, key@) is None,
        },
{
    let mut i: usize = 0;
    while i < named.len()
        invariant
            i <= named@.len(),
            named@.len() == nodes@.len(),
            forall|j: int|
                0 <= j < named@.len() ==> (#[trigger] named@[j]).0@ == nodes@[j].id
                    && named@[j].1.value == entity_id_of(label_of(nodes@[j])),
            entity_named(nodes@.take(i as int), key@) is None,
        decreases named@.len() - i,
    {
        assert(nodes@.take(i + 1).drop_last() =~= nodes@.take(i as int));
        assert(nodes@.take(i + 1).last() == nodes@[i as int]);
        if same(named[i].0.as_str(), key) {
            proof {
                entity_found_stays(nodes@, key@, i + 1);
            }
            return Some(named[i].1);
        }
        i += 1;
    }
    assert(nodes@.take(nodes@.len() as int) =~= nodes@);
    None
}

proof fn entity_found_stays(nodes: Seq<NodeFound>, key: Seq<char>, i: int)
    requires
        0 <= i <= nodes.len(),
        entity_named(nodes.take(i), key) is Some,
    ensures
        entity_named(nodes, key) == entity_named(nodes.take(i), key),
    decreases nodes.len() - i,
{
    if i == nodes.len() {
        assert(nodes.take(i) =~= nodes);
    } else {
        assert(nodes.take(i + 1).drop_last() =~= nodes.take(i));
        entity_found_stays(nodes, key, i + 1);
    }
}

/// Adds the edges that the model found between the entities of a chunk.
fn add_relations(
    src: &Source,
    graph: &ExtractedGraph,
    named: &Vec<(String, Uuid)>,
    edges: &mut Vec<RawEdge>,
)
    requires
        raw_valid(old(edges)@),
        named@.len() == graph@.nodes.len(),
        forall|j: int|
            0 <= j < named@.len() ==> (#[trigger] named@[j]).0@ == graph@.nodes[j].id
                && named@[j].1.value == entity_id_of(label_of(graph@.nodes[j])),
    ensures
        raw_valid(final(edges)@),
        raw_views(final(edges)@) == with_relations(
            raw_views(old(edges)@),
            src@,
            graph@.nodes,
            graph@.edges,
        ),
{
    let ghost nodes = graph@.nodes;
    let ghost found = graph@.edges;
    let ghost start = raw_views(edges@);
    let mut i: usize = 0;
    assert(found.take(0) =~= Seq::empty());
    while i < graph.edges.len()
        invariant
            i <= graph.edges@.len(),
            nodes == graph@.nodes,
            found == graph@.edges,
            found.len() == graph.edges@.len(),
            named@.len() == nodes.len(),
            forall|j: int|
                0 <= j < named@.len() ==> (#[trigger] named@[j]).0@ == nodes[j].id
                    && named@[j].1.value == entity_id_of(label_of(nodes[j])),
            raw_valid(edges@),
            raw_views(edges@) == with_relations(start, src@, nodes, found.take(i as int)),
        decreases graph.edges@.len() - i,
    {
        let e = &graph.edges[i];
        assert(found.take(i + 1).drop_last() =~= found.take(i as int));
        assert(found.take(i + 1).last() == e@);
        let from = find_entity(named, Ghost(nodes), e.source_node_id.as_str());
        let to = find_entity(named, Ghost(nodes), e.target_node_id.as_str());
        match (from, to) {
            (Some(f), Some(t)) => {
                let rel = edge_name(e.relationship_name.as_str());
                let extra = make_relation_extra(e, rel.as_str());
                let raw = edge_raw(f, t, rel.as_str(), Some(extra), src.updated_at.as_str());
                push_raw(edges, raw);
            },
            _ => {},
        }
        i += 1;
    }
    assert(found.take(found.len() as int) =~= found);
}

/// Leaves out the edges that stand earlier already.
fn dedup_raw_edges(edges: Vec<RawEdge>) -> (r: Vec<RawEdge>)
    requires
        raw_valid(edges@),
    ensures
        raw_views(r@) == dedup_raw(raw_views(edges@)),
        raw_valid(r@),
{
    let ghost rows = edges@;
    let ghost all = raw_views(rows);
    let mut out: Vec<RawEdge> = Vec::new();
    assert(raw_views(out@) =~= all.take(0));
    for e in it: edges
        invariant
            it.seq() == rows,
            all == raw_views(rows),
            raw_valid(rows),
            raw_valid(out@),
            raw_views(out@) == dedup_raw(all.take(it.index() as int)),
    {
        let ghost i = it.index() as int;
        assert(all.take(i + 1).drop_last() =~= all.take(i));
        assert(all.take(i + 1).last() == raw_view(e));
        assert(rows[i] == e);
        if !contains_raw(&out, &e) {
            push_raw(&mut out, e);
        }
    }
    assert(all.take(all.len() as int) =~= all);
    out
}

/// Whether some edge is the same as `e`.
fn contains_raw(edges: &Vec<RawEdge>, e: &RawEdge) -> (r: bool)
    ensures
        r == has_raw(raw_views(edges@), raw_view(*e)),
{
    let ghost all = raw_views(edges@);
    let mut i: usize = 0;
    while i < edges.len()
        invariant
            i <= edges@.len(),
            all == raw_views(edges@),
            forall|j: int| 0 <= j < i ==> !same_raw(#[trigger] all[j], raw_view(*e)),
        decreases edges@.len() - i,
    {
        if same(edges[i].0.as_str(), e.0.as_str()) && same(edges[i].1.as_str(), e.1.as_str())
            && same(edges[i].2.as_str(), e.2.as_str()) {
            assert(same_raw(all[i as int], raw_view(*e)));
            return true;
        }
        i += 1;
    }
    false
}

/// Adds what one chunk gives.
fn add_chunk(
    src: &Source,
    chunk: &Chunk,
    graph: &ExtractedGraph,
    summaries: &[String],
    points: &mut Vec<Datapoint>,
    types: &mut Vec<Datapoint>,
    entities: &mut Vec<Datapoint>,
    edges: &mut Vec<RawEdge>,
)
    requires
        points_valid(old(points)@),
        points_valid(old(types)@),
        points_valid(old(entities)@),
        raw_valid(old(edges)@),
    ensures
        points_valid(final(points)@),
        points_valid(final(types)@),
        points_valid(final(entities)@),
        raw_valid(final(edges)@),
        (Built {
            points: point_views(final(points)@),
            types: point_views(final(types)@),
            entities: point_views(final(entities)@),
            edges: raw_views(final(edges)@),
        }) == with_chunk(
            Built {
                points: point_views(old(points)@),
                types: point_views(old(types)@),
                entities: point_views(old(entities)@),
                edges: raw_views(old(edges)@),
            },
            src@,
            chunk.id.value,
            chunk@,
            graph@,
            views(summaries@),
        ),
{
    let chunk_dp = make_chunk(src, chunk);
    push_point(points, chunk_dp);
    let summary = if chunk.chunk_index < summaries.len() {
        owned(summaries[chunk.chunk_index].as_str())
    } else {
        String::new()
    };
    assert(summary@ =~= summary_at(views(summaries@), chunk@.chunk_index));
    let summary_dp = make_summary(src, chunk.id, summary.as_str());
    push_point(points, summary_dp);
    let at = src.updated_at.as_str();
    let part_of = edge_raw(chunk.id, src.document_id, "is_part_of", None, at);
    push_raw(edges, part_of);
    let made_from = edge_raw(text_summary_id(chunk.id), chunk.id, "made_from", None, at);
    push_raw(edges, made_from);
    let ghost now = point_views(points@);
    let ghost nodes = graph@.nodes;
    let ghost begun = Built {
        points: now,
        types: point_views(types@),
        entities: point_views(entities@),
        edges: raw_views(edges@),
    };
    let mut named: Vec<(String, Uuid)> = Vec::new();
    let mut i: usize = 0;
    assert(nodes.take(0) =~= Seq::empty());
    while i < graph.nodes.len()
        invariant
            i <= graph.nodes@.len(),
            nodes == graph@.nodes,
            nodes.len() == graph.nodes@.len(),
            named@.len() == i,
            forall|j: int|
                0 <= j < i ==> (#[trigger] named@[j]).0@ == nodes[j].id && named@[j].1.value
                    == entity_id_of(label_of(nodes[j])),
            points_valid(types@),
            points_valid(entities@),
            raw_valid(edges@),
            (Built {
                points: now,
                types: point_views(types@),
                entities: point_views(entities@),
                edges: raw_views(edges@),
            }) == with_nodes(begun, src@, chunk.id.value, nodes.take(i as int)),
        decreases graph.nodes@.len() - i,
    {
        assert(nodes.take(i + 1).drop_last() =~= nodes.take(i as int));
        assert(nodes.take(i + 1).last() == graph.nodes@[i as int]@);
        let n = &graph.nodes[i];
        let id = add_node(src, chunk.id, n, types, entities, edges, Ghost(now));
        named.push((owned(n.id.as_str()), id));
        i += 1;
    }
    assert(nodes.take(nodes.len() as int) =~= nodes);
    add_relations(src, graph, &named, edges);
}

/// What the chunks of a source give so far.
struct Parts {
    points: Vec<Datapoint>,
    types: Vec<Datapoint>,
    entities: Vec<Datapoint>,
    edges: Vec<RawEdge>,
}

impl Parts {
    spec fn view(&self) -> Built {
        Built {
            points: point_views(self.points@),
            types: point_views(self.types@),
            entities: point_views(self.entities@),
            edges: raw_views(self.edges@),
        }
    }

    spec fn valid(&self) -> bool {
        &&& points_valid(self.points@)
        &&& points_valid(self.types@)
        &&& points_valid(self.entities@)
        &&& raw_valid(self.edges@)
    }
}

/// The document of a source alone.
fn begin(src: &Source) -> (r: Parts)
    ensures
        r@ == built_start(src@),
        r.valid(),
        parsed_number("0.5"@) is Some,
{
    let mut points: Vec<Datapoint> = Vec::new();
    let document = make_document(src);
    push_point(&mut points, document);
    let types: Vec<Datapoint> = Vec::new();
    let entities: Vec<Datapoint> = Vec::new();
    let edges: Vec<RawEdge> = Vec::new();
    proof {
        let start = built_start(src@);
        assert(point_views(points@) =~= start.points);
        assert(point_views(types@) =~= start.types);
        assert(point_views(entities@) =~= start.entities);
        assert(raw_views(edges@) =~= start.edges);
    }
    Parts { points, types, entities, edges }
}

/// The document, the chunks with their summaries, and what was found in them.
#[verifier::spinoff_prover]
#[verifier::rlimit(40)]
fn gather(
    chunks: &[Chunk],
    graphs: &[ExtractedGraph],
    summaries: &[String],
    src: &Source,
) -> (r: Parts)
    ensures
        r@ == built_of(
            src@,
            chunk_ids(chunks@),
            chunk_views(chunks@),
            graph_views(graphs@),
            views(summaries@),
        ),
        r.valid(),
        parsed_number("0.5"@) is Some,
{
    let ghost ids = chunk_ids(chunks@);
    let ghost rows = chunk_views(chunks@);
    let ghost found = graph_views(graphs@);
    let ghost said = views(summaries@);
    let ghost start = built_start(src@);
    let mut parts = begin(src);
    let mut i: usize = 0;
    while i < chunks.len() && i < graphs.len()
        invariant
            i <= chunks@.len(),
            i <= graphs@.len(),
            ids == chunk_ids(chunks@),
            rows == chunk_views(chunks@),
            found == graph_views(graphs@),
            said == views(summaries@),
            parsed_number("0.5"@) is Some,
            parts.valid(),
            parts@ == with_chunks(start, src@, ids, rows, found, said, i as nat),
        decreases chunks@.len() - i,
    {
        add_chunk(
            src,
            &chunks[i],
            &graphs[i],
            summaries,
            &mut parts.points,
            &mut parts.types,
            &mut parts.entities,
            &mut parts.edges,
        );
        i += 1;
    }
    parts
}

/// All data points: of the chunks, of the types and of the entities.
fn join_points(
    points: Vec<Datapoint>,
    types: Vec<Datapoint>,
    entities: Vec<Datapoint>,
) -> (r: Vec<Datapoint>)
    requires
        points_valid(points@),
        points_valid(types@),
        points_valid(entities@),
    ensures
        point_views(r@) == point_views(points@) + point_views(types@) + point_views(entities@),
        points_valid(r@),
{
    let mut points = points;
    let mut types = types;
    let mut entities = entities;
    let ghost a = point_views(points@);
    let ghost b = point_views(types@);
    let ghost c = point_views(entities@);
    points.append(&mut types);
    assert(point_views(points@) =~= a + b);
    points.append(&mut entities);
    assert(point_views(points@) =~= a + b + c);
    points
}

/// The data points and edges of one source: the document, its chunks with their
/// summaries, and the entities found in them with their types.
#[verifier::spinoff_prover]
pub fn build_datapoints(
    chunks: &[Chunk],
    graphs: &[ExtractedGraph],
    summaries: &[String],
    src: &Source,
) -> (r: (Vec<Datapoint>, Vec<RawEdge>))
    ensures
        point_views(r.0@) == points_of(
            built_of(
                src@,
                chunk_ids(chunks@),
                chunk_views(chunks@),
                graph_views(graphs@),
                views(summaries@),
            ),
        ),
        raw_views(r.1@) == dedup_raw(
            built_of(
                src@,
                chunk_ids(chunks@),
                chunk_views(chunks@),
                graph_views(graphs@),
                views(summaries@),
            ).edges,
        ),
        points_valid(r.0@),
        raw_valid(r.1@),
        all_well_kept(point_views(r.0@)),
{
    let parts = gather(chunks, graphs, summaries, src);
    proof {
        let rows = chunk_views(chunks@);
        assert forall|k: int| 0 <= k < rows.len() implies (#[trigger] rows[k]).chunk_size
            <= u64::MAX && rows[k].chunk_index <= u64::MAX by {
            assert(rows[k] == chunks@[k]@);
        }
        points_are_well_kept(
            src@,
            chunk_ids(chunks@),
            rows,
            graph_views(graphs@),
            views(summaries@),
        );
    }
    let points = join_points(parts.points, parts.types, parts.entities);
    let kept = dedup_raw_edges(parts.edges);
    (points, kept)
}

// ---------------------------------------------------------------------------
// Rows
// ---------------------------------------------------------------------------

/// The name of the last named point whose identifier is spelled `id`.
pub open spec fn name_of(points: Seq<DatapointRow>, id: Seq<char>) -> Option<Seq<char>>
    decreases points.len(),
{
    if points.len() == 0 {
        None
    } else if points.last().name is Some && uuid_text(points.last().id) == id {
        points.last().name
    } else {
        name_of(points.drop_last(), id)
    }
}

/// What an endpoint is called: its name, or its identifier where it has none.
pub open spec fn endpoint_label(points: Seq<DatapointRow>, id: Seq<char>) -> Seq<char> {
    match name_of(points, id) {
        Some(name) => name,
        None => id,
    }
}

/// The text of an edge that came without one: the two ends with the relationship
/// between them, its underscores as spaces.
pub open spec fn fallback_text(
    points: Seq<DatapointRow>,
    from: Seq<char>,
    to: Seq<char>,
    rel: Seq<char>,
) -> Seq<char> {
    endpoint_label(points, from) + " "@ + replace_char_of(rel, '_', " "@) + " "@ + endpoint_label(
        points,
        to,
    ) + "."@
}

/// The properties of an edge with the text that stands in for a missing one.
pub open spec fn with_edge_text(points: Seq<DatapointRow>, e: RawEdgeRow) -> Seq<(Seq<char>, Json)> {
    match member_text(Json::Object(e.properties), "edge_text"@) {
        Some(t) if t.len() > 0 => e.properties,
        _ => with_field(
            e.properties,
            "edge_text"@,
            Json::Text(fallback_text(points, e.from_id, e.to_id, e.relationship_name)),
        ),
    }
}

/// The graph row of an edge of one run over one data item.
pub open spec fn edge_row_of(
    points: Seq<DatapointRow>,
    e: RawEdgeRow,
    dataset_id: Seq<char>,
    data_id: Seq<char>,
    run_id: Seq<char>,
) -> EdgeRow {
    EdgeRow {
        from_id: e.from_id,
        to_id: e.to_id,
        relationship_name: Some(e.relationship_name),
        created_at: None,
        updated_at: None,
        properties: Some(json_text(Json::Object(with_edge_text(points, e)))),
        source_ref_keys: Some(list_text(seq![source_ref_of(dataset_id, data_id)])),
        source_dataset_ids: Some(list_text(seq![no_dashes(dataset_id)])),
        source_run_ids: Some(list_text(seq![no_dashes(run_id)])),
        source_run_refs: Some(list_text(seq![run_ref_of(run_id, dataset_id, data_id)])),
    }
}

/// The map holds the name of every named point.
spec fn names_hold(names: Map<Seq<char>, String>, points: Seq<DatapointRow>) -> bool {
    forall|id: Seq<char>|
        #![trigger names.contains_key(id)]
        match name_of(points, id) {
            Some(name) => names.contains_key(id) && names[id]@ == name,
            None => !names.contains_key(id),
        }
}

/// The names of the points, by identifier.
fn point_names(dps: &[Datapoint]) -> (r: StringHashMap<String>)
    ensures
        names_hold(r@, point_views(dps@)),
{
    let ghost all = point_views(dps@);
    let mut names: StringHashMap<String> = StringHashMap::new();
    let mut i: usize = 0;
    assert(names_hold(names@, all.take(0)));
    while i < dps.len()
        invariant
            i <= dps@.len(),
            all == point_views(dps@),
            names_hold(names@, all.take(i as int)),
        decreases dps@.len() - i,
    {
        let ghost before = names@;
        assert(all.take(i + 1).drop_last() =~= all.take(i as int));
        assert(all.take(i + 1).last() == dps@[i as int]@);
        match &dps[i].name {
            Some(name) => {
                let id = dps[i].id.to_string();
                names.insert(id, owned(name.as_str()));
            },
            None => {},
        }
        assert(names_hold(names@, all.take(i + 1))) by {
            assert forall|id: Seq<char>|
                #![trigger names@.contains_key(id)]
                match name_of(all.take(i + 1), id) {
                    Some(name) => names@.contains_key(id) && names@[id]@ == name,
                    None => !names@.contains_key(id),
                } by {
                assert(before.contains_key(id) ==> before.dom().contains(id));
            }
        }
        i += 1;
    }
    assert(all.take(all.len() as int) =~= all);
    names
}

/// What an endpoint is called.
fn find_label(names: &StringHashMap<String>, points: Ghost<Seq<DatapointRow>>, id: &str) -> (r:
    String)
    requires
        names_hold(names@, points@),
    ensures
        r@ == endpoint_label(points@, id@),
{
    assert(names@.contains_key(id@) ==> names@.dom().contains(id@));
    match names.get(id) {
        Some(name) => owned(name.as_str()),
        None => owned(id),
    }
}

/// The text of an edge that came without one.
fn fallback_edge_text(
    from: &str,
    to: &str,
    rel: &str,
    names: &StringHashMap<String>,
    points: Ghost<Seq<DatapointRow>>,
) -> (r: String)
    requires
        names_hold(names@, points@),
    ensures
        r@ == fallback_text(points@, from@, to@, rel@),
{
    let mut out = find_label(names, points, from);
    out.append(" ");
    out.append(replace_char(rel, '_', " ").as_str());
    out.append(" ");
    out.append(find_label(names, points, to).as_str());
    out.append(".");
    out
}

/// The graph row of an edge.
fn to_graph_edge(
    raw: &RawEdge,
    names: &StringHashMap<String>,
    points: Ghost<Seq<DatapointRow>>,
    dataset_id: &str,
    data_id: &str,
    run_id: &str,
) -> (r: GraphEdge)
    requires
        names_hold(names@, points@),
        unambiguous(Json::Object(field_views(raw.3@))),
    ensures
        r@ == edge_row_of(points@, raw_view(*raw), dataset_id@, data_id@, run_id@),
{
    broadcast use doc_view_parts;

    let mut props = copy_fields(&raw.3);
    let whole = Doc::Object(copy_fields(&raw.3));
    let has_text = match whole.get_str("edge_text") {
        Some(t) => t.unicode_len() > 0,
        None => false,
    };
    if !has_text {
        let text = fallback_edge_text(
            raw.0.as_str(),
            raw.1.as_str(),
            raw.2.as_str(),
            names,
            points,
        );
        proof {
            field_set_keeps_unambiguous(field_views(props@), "edge_text"@, Json::Text(text@));
        }
        set_field(&mut props, "edge_text", Doc::Text(text));
    }
    let doc = Doc::Object(props);
    GraphEdge {
        from_id: owned(raw.0.as_str()),
        to_id: owned(raw.1.as_str()),
        relationship_name: Some(owned(raw.2.as_str())),
        created_at: None,
        updated_at: None,
        properties: Some(doc_text(&doc)),
        source_ref_keys: Some(sole_list(source_ref(dataset_id, data_id))),
        source_dataset_ids: Some(sole_list(replace_char(dataset_id, '-', ""))),
        source_run_ids: Some(sole_list(replace_char(run_id, '-', ""))),
        source_run_refs: Some(sole_list(run_ref(run_id, dataset_id, data_id))),
    }
}

/// The graph rows of data points.
pub open spec fn node_rows_of(
    points: Seq<DatapointRow>,
    dataset_id: Seq<char>,
    data_id: Seq<char>,
    run_id: Seq<char>,
) -> Seq<NodeRow> {
    points.map_values(|p: DatapointRow| node_row_of(p, dataset_id, data_id, run_id))
}

/// The graph rows of edges.
pub open spec fn edge_rows_of(
    points: Seq<DatapointRow>,
    edges: Seq<RawEdgeRow>,
    dataset_id: Seq<char>,
    data_id: Seq<char>,
    run_id: Seq<char>,
) -> Seq<EdgeRow> {
    edges.map_values(|e: RawEdgeRow| edge_row_of(points, e, dataset_id, data_id, run_id))
}

/// The graph rows of data points and edges.
pub fn to_rows(
    dps: &[Datapoint],
    raw_edges: &[RawEdge],
    dataset_id: &str,
    data_id: &str,
    run_id: &str,
) -> (r: (Vec<GraphNode>, Vec<GraphEdge>))
    requires
        points_valid(dps@),
        raw_valid(raw_edges@),
    ensures
        node_views(r.0@) == node_rows_of(point_views(dps@), dataset_id@, data_id@, run_id@),
        edge_views(r.1@) == edge_rows_of(
            point_views(dps@),
            raw_views(raw_edges@),
            dataset_id@,
            data_id@,
            run_id@,
        ),
        all_well_kept(point_views(dps@)) ==> read_back(point_views(dps@)),
{
    let names = point_names(dps);
    let ghost points = point_views(dps@);
    let mut nodes: Vec<GraphNode> = Vec::new();
    let mut i: usize = 0;
    while i < dps.len()
        invariant
            i <= dps@.len(),
            points_valid(dps@),
            nodes@.len() == i,
            forall|j: int|
                0 <= j < i ==> (#[trigger] nodes@[j])@ == node_row_of(
                    dps@[j]@,
                    dataset_id@,
                    data_id@,
                    run_id@,
                ),
            forall|j: int|
                0 <= j < i && readable(Json::Object((#[trigger] dps@[j])@.properties))
                    ==> parsed_json(json_text(Json::Object(dps@[j]@.properties))) == Some(
                    Json::Object(dps@[j]@.properties),
                ),
        decreases dps@.len() - i,
    {
        nodes.push(to_graph_node(&dps[i], dataset_id, data_id, run_id));
        i += 1;
    }
    proof {
        if all_well_kept(points) {
            assert forall|k: int| 0 <= k < points.len() implies parsed_json(
                json_text(Json::Object((#[trigger] points[k]).properties)),
            ) == Some(Json::Object(points[k].properties)) by {
                assert(well_kept(points[k]));
                assert(points[k] == dps@[k]@);
            }
        }
    }
    let mut edges: Vec<GraphEdge> = Vec::new();
    let mut k: usize = 0;
    while k < raw_edges.len()
        invariant
            k <= raw_edges@.len(),
            raw_valid(raw_edges@),
            names_hold(names@, points),
            edges@.len() == k,
            forall|j: int|
                0 <= j < k ==> (#[trigger] edges@[j])@ == edge_row_of(
                    points,
                    raw_view(raw_edges@[j]),
                    dataset_id@,
                    data_id@,
                    run_id@,
                ),
        decreases raw_edges@.len() - k,
    {
        edges.push(
            to_graph_edge(&raw_edges[k], &names, Ghost(points), dataset_id, data_id, run_id),
        );
        k += 1;
    }
    assert(node_views(nodes@) =~= node_rows_of(points, dataset_id@, data_id@, run_id@));
    assert(edge_views(edges@) =~= edge_rows_of(
        points,
        raw_views(raw_edges@),
        dataset_id@,
        data_id@,
        run_id@,
    ));
    (nodes, edges)
}

} // verus!
