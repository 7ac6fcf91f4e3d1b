//! The write path, step by step: what is to be done with a text, its metadata,
//! its graph, and the report.

use vstd::prelude::*;
use vstd::string::*;

use crate::ingest::assemble::{
    build_datapoints, built_of, chunk_ids, dedup_raw, edge_rows_of, node_rows_of, point_views,
    points_of, points_valid, read_back, to_rows, RawEdgeRow, Source,
};
use crate::ingest::chunk::{
    chunk_text, chunk_views, chunks_of, estimate_tokens, no_chunks_iff_blank, random_ids, tokens_of,
    Chunk,
};
use crate::ingest::datapoints::{source_ref, source_ref_of, Datapoint, DatapointRow};
use crate::ingest::extract::{graph_views, ExtractedGraph};
use crate::ingest::points::all_well_kept;
use crate::json::json_text;
use crate::number::{hex_of, hex_text};
use crate::storage::dashless::stored_uuid;
use crate::storage::graph::{
    edge_merged, edge_views, node_merged, node_views, put_nodes, put_edges, put_edges_never_shrinks,
    put_nodes_never_shrinks, EdgeRow, Graph, GraphStore, NodeRow,
};
use crate::storage::relational::{
    completed_of, data_by_hash, data_index, data_entry_of, data_index_is_first, dataset_index,
    dataset_index_is_first, has_data, has_dataset_id, holds_content, named_dataset, new_dataset,
    recorded_status, started_status, status_of, user_index, with_status, DataEntry, DataInsert,
    DatasetEntry, RelationalError, RelationalStore, Relations, StatusError, DEFAULT_USER_EMAIL,
};
use crate::text::{blank, concat2, is_blank, owned, views};
use crate::uid::{
    parsed_uuid, simple_text, simple_text_reads_back, uuid_text, uuid_text_reads_back, Uuid,
};

verus! {

// ---------------------------------------------------------------------------
// Content hashes
// ---------------------------------------------------------------------------

/// The MD5 digest of some bytes.
pub uninterp spec fn md5_digest(data: Seq<u8>) -> Seq<u8>;

/// `Digest::digest` of `md5::Md5`: the digest depends on the bytes alone and has
/// sixteen bytes.
#[verifier::external_body]
fn md5_bytes(data: &[u8]) -> (r: Vec<u8>)
    ensures
        r@ == md5_digest(data@),
        r@.len() == 16,
{
    <md5::Md5 as md5::Digest>::digest(data).to_vec()
}

/// The content hash of a text.
pub open spec fn content_hash_of(data: Seq<char>) -> Seq<char> {
    hex_of(md5_digest(vstd::utf8::encode_utf8(data)))
}

/// The content hash of a text: the MD5 digest of its bytes in hexadecimal.
pub fn md5_hex(data: &str) -> (r: String)
    ensures
        r@ == content_hash_of(data@),
{
    let digest = md5_bytes(data.as_bytes());
    hex_text(&digest)
}

// ---------------------------------------------------------------------------
// Remembering, step by step
// ---------------------------------------------------------------------------

/// What remembering a text did.
#[derive(Debug, PartialEq)]
pub struct RememberReport {
    pub dataset: String,
    pub data_id: String,
    pub content_hash: String,
    pub chunks: usize,
    pub graph_nodes: usize,
    pub graph_edges: usize,
    pub vectors: usize,
    pub skipped_existing: bool,
}

/// Why a text was not remembered.
#[derive(Debug)]
pub enum RememberError {
    /// There is nothing but white space in it.
    Empty,
    /// The metadata could not be written.
    Relational(RelationalError),
}

/// What is to be done with a text.
#[derive(Debug, PartialEq)]
pub enum Plan {
    /// The dataset holds it already.
    Existing(RememberReport),
    /// It is new, with this content hash.
    Store(String),
}

/// The report on a text that the dataset holds already.
pub open spec fn is_skipped(
    r: RememberReport,
    dataset: Seq<char>,
    data_id: Seq<char>,
    hash: Seq<char>,
) -> bool {
    &&& r.dataset@ == dataset
    &&& r.data_id@ == data_id
    &&& r.content_hash@ == hash
    &&& r.chunks == 0
    &&& r.graph_nodes == 0
    &&& r.graph_edges == 0
    &&& r.vectors == 0
    &&& r.skipped_existing
}

/// Decides what is to be done with a text: nothing where it is blank or the
/// dataset holds the same content.
pub fn plan(data: &str, dataset_name: &str, relational: &RelationalStore) -> (r: Result<
    Plan,
    RememberError,
>)
    ensures
        ({
            let hash = content_hash_of(data@);
            let held = data_by_hash(
                relational@.datasets,
                relational@.data,
                dataset_name@,
                hash,
            );
            match r {
                Err(e) => e is Empty && blank(data@),
                Ok(Plan::Existing(report)) => !blank(data@) && held is Some && is_skipped(
                    report,
                    dataset_name@,
                    held->0,
                    hash,
                ),
                Ok(Plan::Store(h)) => !blank(data@) && held is None && h@ == hash,
            }
        }),
{
    if is_blank(data) {
        return Err(RememberError::Empty);
    }
    let content_hash = md5_hex(data);
    match relational.find_data_by_hash(dataset_name, content_hash.as_str()) {
        Some(existing) => Ok(
            Plan::Existing(
                RememberReport {
                    dataset: owned(dataset_name),
                    data_id: existing,
                    content_hash,
                    chunks: 0,
                    graph_nodes: 0,
                    graph_edges: 0,
                    vectors: 0,
                    skipped_existing: true,
                },
            ),
        ),
        None => Ok(Plan::Store(content_hash)),
    }
}

/// The name under which a text with a content hash is kept.
pub open spec fn text_name_of(hash: Seq<char>) -> Seq<char> {
    "text_"@ + hash
}

/// The name under which a text with a content hash is kept.
pub fn text_name(content_hash: &str) -> (r: String)
    ensures
        r@ == text_name_of(content_hash@),
{
    concat2("text_", content_hash)
}

/// How many tokens a chunk of a source may have.
pub const CHUNK_TOKENS: usize = 1500;

/// The chunks of a source; a text that says anything has some.
pub fn chunk_source(data: &str) -> (r: Vec<Chunk>)
    ensures
        chunk_views(r@) == chunks_of(data@, CHUNK_TOKENS as nat),
        r@.len() == 0 <==> blank(data@),
        forall|i: int|
            0 <= i < r@.len() ==> tokens_of((#[trigger] r@[i]).text@) <= CHUNK_TOKENS,
        random_ids(r@),
{
    let chunks = chunk_text(data, CHUNK_TOKENS);
    proof {
        no_chunks_iff_blank(data@, CHUNK_TOKENS as nat);
        assert(chunk_views(chunks@).len() == chunks@.len());
    }
    chunks
}

/// A count, no larger than 64 signed bits hold.
pub open spec fn capped(n: nat) -> int {
    if n <= i64::MAX {
        n as int
    } else {
        i64::MAX as int
    }
}

/// A count, no larger than 64 signed bits hold.
fn cap(n: usize) -> (r: i64)
    ensures
        r == capped(n as nat),
{
    let wide: u64 = n as u64;
    if wide <= 0x7fff_ffff_ffff_ffff {
        wide as i64
    } else {
        0x7fff_ffff_ffff_ffff
    }
}

/// The identifiers made for one text, and when it is written.
#[derive(Debug)]
pub struct Intake {
    pub data_id: Uuid,
    pub run_id: Uuid,
    /// The identifier of the dataset, if it has to be made.
    pub fresh_dataset: Uuid,
    /// Where the source text was written.
    pub location: String,
    /// The time, as the relational store keeps it.
    pub now: String,
}

/// The row of a text.
pub open spec fn is_text_row(
    e: DataEntry,
    data: Seq<char>,
    intake: Intake,
    dataset: u128,
    owner: Seq<char>,
) -> bool {
    let hash = content_hash_of(data);
    &&& e.id == simple_text(intake.data_id.value)
    &&& e.name == Some(text_name_of(hash))
    &&& e.extension == Some("txt"@)
    &&& e.mime_type == Some("text/plain"@)
    &&& e.raw_data_location == Some("file://"@ + intake.location@)
    &&& e.owner_id == Some(owner)
    &&& e.dataset_id == Some(simple_text(dataset))
    &&& e.content_hash == Some(hash)
    &&& e.raw_content_hash == Some(hash)
    &&& e.pipeline_status == Some(
        json_text(
            started_status(uuid_text(intake.run_id.value), "DATA_ITEM_PROCESSING_STARTED"@),
        ),
    )
    &&& e.token_count matches Some(t) && t == capped(tokens_of(data))
    &&& e.data_size matches Some(n) && n == capped(vstd::utf8::encode_utf8(data).len())
    &&& e.created_at == Some(intake.now@)
    &&& e.updated_at == Some(intake.now@)
}

/// `after` is `before` with a new text in a dataset: its row at the end, and the
/// dataset at the end where there was none of that name.
pub open spec fn registered(
    before: Relations,
    after: Relations,
    data: Seq<char>,
    dataset_name: Seq<char>,
    intake: Intake,
    dataset: u128,
) -> bool {
    let owner = user_index(before.users, DEFAULT_USER_EMAIL@);
    &&& owner is Some
    &&& match dataset_index(before.datasets, dataset_name) {
        Some(i) => after.datasets == before.datasets && stored_uuid(before.datasets[i].id) == Some(
            dataset as int,
        ),
        None => dataset == intake.fresh_dataset.value && after.datasets == before.datasets.push(
            new_dataset(dataset, dataset_name, intake.now@, before.users[owner->0].id),
        ),
    }
    &&& after.data.len() == before.data.len() + 1
    &&& after.data.drop_last() == before.data
    &&& is_text_row(after.data.last(), data, intake, dataset, before.users[owner->0].id)
}

/// No data item of those holds the content, also with another dataset at the end
/// that none of them is in.
proof fn nothing_holds_content(
    before: Seq<DatasetEntry>,
    after: Seq<DatasetEntry>,
    data: Seq<DataEntry>,
    name: Seq<char>,
    hash: Seq<char>,
)
    requires
        data_by_hash(before, data, name, hash) is None,
        after == before || (after.len() > 0 && after.drop_last() == before && forall|i: int|
            0 <= i < data.len() ==> (#[trigger] data[i]).dataset_id != Some(after.last().id)),
    ensures
        data_by_hash(after, data, name, hash) is None,
    decreases data.len(),
{
    if data.len() > 0 && after != before {
        let head = data.drop_last();
        assert forall|i: int| 0 <= i < head.len() implies (#[trigger] head[i]).dataset_id != Some(
            after.last().id,
        ) by {
            assert(head[i] == data[i]);
        }
        nothing_holds_content(before, after, head, name, hash);
        let row = data[data.len() - 1];
        assert(row == data.last());
        if holds_content(after, row, name, hash) {
            let id = row.dataset_id->0;
            let k = choose|k: int|
                0 <= k < after.len() && (#[trigger] after[k]).name == Some(name) && after[k].id
                    == id;
            assert(k < before.len());
            assert(before[k] == after[k]);
            assert(named_dataset(before, name, id));
        }
    }
}

/// Remembering a text again changes nothing: once it is registered, and once its
/// run is recorded as completed, it is found by its content in its dataset under
/// the identifier that it was given. There may be no data item in a dataset that
/// does not exist, and the dataset's identifier must be stored in the spelling
/// that this library writes.
pub proof fn remembered_again_is_found(
    before: Relations,
    after: Relations,
    data: Seq<char>,
    dataset_name: Seq<char>,
    intake: Intake,
    dataset: u128,
    status: Seq<char>,
    now: Seq<char>,
)
    requires
        registered(before, after, data, dataset_name, intake, dataset),
        !has_data(before.data, simple_text(intake.data_id.value)),
        data_by_hash(before.datasets, before.data, dataset_name, content_hash_of(data)) is None,
        match dataset_index(before.datasets, dataset_name) {
            Some(i) => before.datasets[i].id == simple_text(dataset),
            None => forall|i: int|
                0 <= i < before.data.len() ==> (#[trigger] before.data[i]).dataset_id != Some(
                    simple_text(dataset),
                ),
        },
    ensures
        ({
            let id = simple_text(intake.data_id.value);
            let hash = content_hash_of(data);
            let done = with_status(after.data, id, status, now);
            &&& data_by_hash(after.datasets, after.data, dataset_name, hash) == Some(id)
            &&& data_by_hash(after.datasets, done, dataset_name, hash) == Some(id)
        }),
        parsed_uuid(simple_text(intake.data_id.value)) == Some(intake.data_id.value as int),
        parsed_uuid(uuid_text(intake.data_id.value)) == Some(intake.data_id.value as int),
{
    dataset_index_is_first(before.datasets, dataset_name);
    simple_text_reads_back(intake.data_id.value);
    uuid_text_reads_back(intake.data_id.value);
    let id = simple_text(intake.data_id.value);
    let hash = content_hash_of(data);
    assert(named_dataset(after.datasets, dataset_name, simple_text(dataset))) by {
        match dataset_index(before.datasets, dataset_name) {
            Some(i) => {
                assert(after.datasets[i].id == simple_text(dataset));
            },
            None => {
                let k = before.datasets.len() as int;
                assert(after.datasets[k].id == simple_text(dataset));
            },
        }
    }
    if after.datasets != before.datasets {
        assert(after.datasets.drop_last() =~= before.datasets);
    }
    nothing_holds_content(before.datasets, after.datasets, before.data, dataset_name, hash);
    assert(holds_content(after.datasets, after.data.last(), dataset_name, hash));
    let done = with_status(after.data, id, status, now);
    data_index_is_first(after.data, id);
    assert(after.data[after.data.len() - 1].id == id);
    let k = data_index(after.data, id)->0;
    if k < before.data.len() {
        assert(after.data.drop_last()[k] == before.data[k]);
    }
    assert(k == after.data.len() - 1);
    assert(done.drop_last() =~= before.data);
    assert(holds_content(after.datasets, done.last(), dataset_name, hash));
}

/// The datasets, with one of that name at the end where there was none.
pub open spec fn with_dataset(before: Relations, name: Seq<char>, intake: Intake) -> Seq<
    DatasetEntry,
> {
    match dataset_index(before.datasets, name) {
        Some(_) => before.datasets,
        None => before.datasets.push(
            new_dataset(
                intake.fresh_dataset.value,
                name,
                intake.now@,
                before.users[user_index(before.users, DEFAULT_USER_EMAIL@)->0].id,
            ),
        ),
    }
}

/// Why a text was not registered, and what the store holds then: the dataset's
/// identifier cannot be read, there is no default user, or an identifier made
/// for the dataset or for the data item is taken. The new dataset stays where
/// only the data item's identifier is taken.
pub open spec fn is_register_error(
    before: Relations,
    after: Relations,
    dataset_name: Seq<char>,
    intake: Intake,
    e: RelationalError,
) -> bool {
    let owner = user_index(before.users, DEFAULT_USER_EMAIL@);
    let dataset = dataset_index(before.datasets, dataset_name);
    match e {
        RelationalError::BadId(hex) => dataset matches Some(i) && hex@ == before.datasets[i].id
            && stored_uuid(hex@) is None && after == before,
        RelationalError::DefaultUserMissing => owner is None && after == before && (
        dataset matches Some(i) ==> stored_uuid(before.datasets[i].id) is Some),
        RelationalError::Duplicate => {
            &&& owner is Some
            &&& dataset matches Some(i) ==> stored_uuid(before.datasets[i].id) is Some
            &&& if dataset is None && has_dataset_id(
                before.datasets,
                simple_text(intake.fresh_dataset.value),
            ) {
                after == before
            } else {
                has_data(before.data, simple_text(intake.data_id.value)) && after == (Relations {
                    datasets: with_dataset(before, dataset_name, intake),
                    ..before
                })
            }
        },
        _ => false,
    }
}

/// Writes the metadata of a new text: its dataset, where that does not exist,
/// and its row.
pub fn register(
    data: &str,
    dataset_name: &str,
    intake: &Intake,
    relational: &mut RelationalStore,
) -> (r: Result<Uuid, RememberError>)
    requires
        old(relational).valid(),
    ensures
        final(relational).valid(),
        final(relational)@.users == old(relational)@.users,
        match r {
            Ok(dataset) => registered(
                old(relational)@,
                final(relational)@,
                data@,
                dataset_name@,
                *intake,
                dataset.value,
            ) && !has_data(old(relational)@.data, simple_text(intake.data_id.value)),
            Err(RememberError::Relational(e)) => is_register_error(
                old(relational)@,
                final(relational)@,
                dataset_name@,
                *intake,
                e,
            ),
            Err(_) => false,
        },
{
    let ghost before = relational@;
    proof {
        dataset_index_is_first(before.datasets, dataset_name@);
    }
    let dataset = match relational.ensure_dataset_at(
        dataset_name,
        intake.fresh_dataset,
        intake.now.as_str(),
    ) {
        Ok(id) => id,
        Err(e) => {
            return Err(RememberError::Relational(e));
        },
    };
    let owner = match relational.default_user_id() {
        Ok(id) => id,
        Err(e) => {
            return Err(RememberError::Relational(e));
        },
    };
    let content_hash = md5_hex(data);
    let name = text_name(content_hash.as_str());
    let location = concat2("file://", intake.location.as_str());
    let tokens = estimate_tokens(data);
    let bytes = data.as_bytes();
    let row = DataInsert {
        id: intake.data_id,
        name: name.as_str(),
        mime_type: "text/plain",
        extension: "txt",
        raw_data_location: location.as_str(),
        owner_id: owner,
        dataset_id: dataset,
        content_hash: content_hash.as_str(),
        raw_content_hash: content_hash.as_str(),
        token_count: cap(tokens),
        data_size: cap(bytes.len()),
        run_id: intake.run_id,
    };
    let ghost had = relational@.data;
    match relational.insert_data_at(&row, intake.now.as_str()) {
        Ok(_) => {
            proof {
                let entry = data_entry_of(row, intake.now@);
                assert(relational@.data == had.push(entry));
                assert(had.push(entry).drop_last() =~= had);
            }
            Ok(dataset)
        },
        Err(e) => Err(RememberError::Relational(e)),
    }
}

// ---------------------------------------------------------------------------
// The graph
// ---------------------------------------------------------------------------

/// The node rows that a source gives a graph: those of its data points, with the
/// provenance that the graph has of them.
pub open spec fn new_nodes(
    g: Graph,
    points: Seq<DatapointRow>,
    dataset: u128,
    data: u128,
    run: u128,
) -> Seq<NodeRow> {
    node_rows_of(points, uuid_text(dataset), uuid_text(data), uuid_text(run)).map_values(
        |n: NodeRow| node_merged(g, n, source_ref_of(uuid_text(dataset), uuid_text(data))),
    )
}

/// The edge rows that a source gives a graph.
pub open spec fn new_edges(
    g: Graph,
    points: Seq<DatapointRow>,
    edges: Seq<RawEdgeRow>,
    dataset: u128,
    data: u128,
    run: u128,
) -> Seq<EdgeRow> {
    edge_rows_of(
        points,
        edges,
        uuid_text(dataset),
        uuid_text(data),
        uuid_text(run),
    ).map_values(
        |e: EdgeRow| edge_merged(g, e, source_ref_of(uuid_text(dataset), uuid_text(data))),
    )
}

/// The graph with what a source gives it.
pub open spec fn graph_with(
    g: Graph,
    points: Seq<DatapointRow>,
    edges: Seq<RawEdgeRow>,
    dataset: u128,
    data: u128,
    run: u128,
) -> Graph {
    Graph {
        nodes: put_nodes(g.nodes, new_nodes(g, points, dataset, data, run)),
        edges: put_edges(g.edges, new_edges(g, points, edges, dataset, data, run)),
        ..g
    }
}

/// What was written to the graph.
#[derive(Debug)]
pub struct Committed {
    /// The data points, still to be embedded.
    pub datapoints: Vec<Datapoint>,
    /// How many nodes are new.
    pub graph_nodes: usize,
    /// How many edges are new.
    pub graph_edges: usize,
}

/// Builds the data points of a source and writes their rows to the graph; rows
/// that are there already keep their provenance and get the new entry.
pub fn commit(
    graph: &mut GraphStore,
    chunks: &[Chunk],
    graphs: &[ExtractedGraph],
    summaries: &[String],
    src: &Source,
    dataset_id: Uuid,
    data_id: Uuid,
    run_id: Uuid,
) -> (r: Committed)
    requires
        old(graph).valid(),
    ensures
        final(graph).valid(),
        ({
            let b = built_of(
                src@,
                chunk_ids(chunks@),
                chunk_views(chunks@),
                graph_views(graphs@),
                views(summaries@),
            );
            &&& point_views(r.datapoints@) == points_of(b)
            &&& points_valid(r.datapoints@)
            &&& all_well_kept(points_of(b))
            &&& read_back(points_of(b))
            &&& final(graph)@ == graph_with(
                old(graph)@,
                points_of(b),
                dedup_raw(b.edges),
                dataset_id.value,
                data_id.value,
                run_id.value,
            )
            &&& r.graph_nodes == final(graph)@.nodes.len() - old(graph)@.nodes.len()
            &&& r.graph_edges == final(graph)@.edges.len() - old(graph)@.edges.len()
        }),
{
    let (points, raw_edges) = build_datapoints(chunks, graphs, summaries, src);
    let dataset = dataset_id.to_string();
    let data = data_id.to_string();
    let run = run_id.to_string();
    let (mut nodes, mut edges) = to_rows(
        &points,
        &raw_edges,
        dataset.as_str(),
        data.as_str(),
        run.as_str(),
    );
    let key = source_ref(dataset.as_str(), data.as_str());
    graph.merge_provenance(&mut nodes, &mut edges, key.as_str());
    let ghost before = graph@;
    let had: usize = graph.node_count();
    let had_edges: usize = graph.edge_count();
    graph.insert_nodes(&nodes);
    graph.upsert_edges(&edges);
    proof {
        put_nodes_never_shrinks(before.nodes, node_views(nodes@));
        put_edges_never_shrinks(before.edges, edge_views(edges@));
    }
    Committed {
        graph_nodes: graph.node_count() - had,
        graph_edges: graph.edge_count() - had_edges,
        datapoints: points,
    }
}

/// Records the run as completed and reports on it.
pub fn finish(
    relational: &mut RelationalStore,
    dataset_name: &str,
    content_hash: &str,
    dataset_id: Uuid,
    data_id: Uuid,
    run_id: Uuid,
    chunks: usize,
    graph_nodes: usize,
    graph_edges: usize,
    vectors: usize,
    now: &str,
) -> (r: Result<RememberReport, RememberError>)
    ensures
        old(relational).valid() ==> final(relational).valid(),
        ({
            let id = simple_text(data_id.value);
            let before = old(relational)@;
            let done = completed_of(
                status_of(recorded_status(before.data, id)),
                uuid_text(run_id.value),
            );
            match r {
                Ok(report) => {
                    &&& done matches Ok(doc) && final(relational)@ == (Relations {
                        data: with_status(before.data, id, json_text(doc), now@),
                        ..before
                    })
                    &&& report.dataset@ == dataset_name@
                    &&& report.data_id@ == uuid_text(data_id.value)
                    &&& report.content_hash@ == content_hash@
                    &&& report.chunks == chunks
                    &&& report.graph_nodes == graph_nodes
                    &&& report.graph_edges == graph_edges
                    &&& report.vectors == vectors
                    &&& !report.skipped_existing
                },
                Err(RememberError::Relational(RelationalError::Status(e))) => done == Err::<
                    crate::json::Json,
                    StatusError,
                >(e) && final(relational)@ == before,
                Err(_) => false,
            }
        }),
{
    match relational.mark_data_processed_at(data_id, run_id, now) {
        Ok(_) => Ok(
            RememberReport {
                dataset: owned(dataset_name),
                data_id: data_id.to_string(),
                content_hash: owned(content_hash),
                chunks,
                graph_nodes,
                graph_edges,
                vectors,
                skipped_existing: false,
            },
        ),
        Err(e) => Err(RememberError::Relational(e)),
    }
}

} // verus!
