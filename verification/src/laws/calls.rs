//! What the operations give back, said of their own arguments and results.

use vstd::prelude::*;

use crate::config::{
    data_root, databases_dir, graph_db_path, lancedb_path, relational_db_path, session_db_path,
    text_dir,
};
use crate::doctor::{
    count_healing, heal_table, node_rows, repair_graph_from_dump, repeated_ids, DoctorReport,
    Healing,
};
use crate::embed::{check_vectors, EmbedError};
use crate::forget::{
    finish_forget, forget, resolve_target, ForgetError, ForgetReport, ForgetTarget, Forgotten,
};
use crate::ingest::assemble::Source;
use crate::ingest::chunk::{tokens_of, Chunk};
use crate::ingest::extract::{extract_graph, summarize, ExtractError, ExtractedGraph};
use crate::ingest::ids::text_summary_id_of;
use crate::json::{Doc, Json};
use crate::laws::forgetting::{
    counts_add_up, everything_is_every_item, everything_leaves_no_row, tells,
};
use crate::laws::recall::{
    description_is_shown, every_node_around_has_a_line, holds_at, line_stands_in_context,
    prompt_holds_context_and_question, said, stands_at, summaries_are_shown, taken,
};
use crate::laws::remembering::under;
use crate::laws::repairing::{column, holds_columns, live_nodes_stay, lost_node_comes_back};
use crate::laws::walking::leads;
use crate::llm::{read_reply, LlmError, Message};
use crate::mcp::{
    authorized, forget_target, recall_options, target_dataset, ForgetParams, RecallParams,
    RememberParams, RequestError,
};
use crate::migrate::{import, DumpSummary, ImportReport, MetadataRow};
use crate::provenance::{forgotten_is_gone, knows_nothing_of};
use crate::recall::{
    answered, empty_outcome, question, seed_table, Question, RecallOptions, RecallOutcome,
    SearchType, UnknownSearchType,
};
use crate::remember::{
    chunk_source, commit, content_hash_of, finish, plan, register, Committed, Intake, Plan,
    RememberError, RememberReport,
};
use crate::settings::{init, with_flags, McpSettings, Settings};
use crate::storage::dashless::stored_uuid;
use crate::storage::graph::{distinct_ids, node_views, GraphEdge, GraphNode, GraphStore, NodeRow};
use crate::storage::histogram::count_of;
use crate::storage::relational::{DatasetKey, RelationalStore};
use crate::storage::vector::VectorHit;
use crate::storage::vector_writer::VectorRow;
use crate::text::{blank, opt_view, trim_of, views, white};
use crate::uid::{parsed_uuid, simple_text, uuid_text, Uuid};

verus! {

// ---------------------------------------------------------------------------
// Recalling
// ---------------------------------------------------------------------------

/// Summaries are looked for where they are written, and so are entities.
pub proof fn seeds_are_looked_for_where_they_are(t: SearchType, r: &'static str)
    requires
        call_ensures(seed_table, (t,), r),
    ensures
        t == SearchType::Summaries ==> r@ == "TextSummary_text"@,
        t == SearchType::GraphCompletion ==> r@ == "Entity_name"@,
{
}

/// `part` stands somewhere in `text`.
pub open spec fn stands_in(text: Seq<char>, part: Seq<char>) -> bool {
    exists|p: int|
        0 <= p && p + part.len() <= text.len() && #[trigger] text.subrange(p, p + part.len())
            == part
}

proof fn parts_of_parts(a: Seq<char>, text: Seq<char>, b: Seq<char>, p: int, n: int)
    requires
        0 <= p,
        0 <= n,
        p + n <= text.len(),
    ensures
        stands_in(a + text + b, text.subrange(p, p + n)),
{
    let all = a + text + b;
    let part = text.subrange(p, p + n);
    let q = a.len() + p;
    assert(all.subrange(q, q + part.len()) =~= part);
}

/// Nothing is asked where nothing was found. What is asked ends with the question,
/// is told with the instructions given, or else the standard ones, and says how
/// much of the graph it rests on.
pub proof fn questions_are_asked<T>(
    query: &str,
    opts: &RecallOptions,
    hits: &[VectorHit<T>],
    graph: &GraphStore,
    r: Option<Question>,
)
    requires
        call_ensures(question::<T>, (query, opts, hits, graph), r),
    ensures
        hits@.len() == 0 ==> r is None,
        r matches Some(q) ==> {
            &&& q.user@.len() >= query@.len()
            &&& q.user@.skip(q.user@.len() - query@.len()) == query@
            &&& (opts.system_prompt matches Some(s) ==> q.system@ == s@)
            &&& (opts.system_prompt is None ==> q.system@ == "You are a memory assistant. Answer the user's question using ONLY the memory context provided. Be concise and concrete. If the context does not contain the answer, say so plainly instead of guessing. Answer in the language of the question."@)
            &&& q.user@.len() == 28 + q.context_chars + query@.len()
            &&& (opts.search_type == SearchType::Summaries ==> q.reached_nodes == 0
                && q.reached_edges == 0)
        },
{
    if let Some(q) = r {
        let c = crate::recall::context_of(opts.search_type, hits@, graph@, opts.max_hops as nat);
        prompt_holds_context_and_question(c.text, query@);
        assert(q.user@.skip(q.user@.len() - query@.len()) =~= query@);
    }
}

/// A question answered from summaries is told the text of every hit, whole up to
/// 600 characters, as long as the texts up to it are within the bound.
pub proof fn summaries_reach_the_model<T>(
    query: &str,
    opts: &RecallOptions,
    hits: &[VectorHit<T>],
    graph: &GraphStore,
    r: Option<Question>,
    i: int,
    text: Seq<char>,
)
    requires
        call_ensures(question::<T>, (query, opts, hits, graph), r),
        opts.search_type == SearchType::Summaries,
        0 <= i < hits@.len(),
        opt_view(hits@[i].text) == Some(text),
        text.len() > 0,
        text.len() <= 600,
        !white(text.last()),
        said(hits@, i + 1) <= 12_000,
    ensures
        r matches Some(q) && stands_in(q.user@, text),
{
    let c = crate::recall::context_of(opts.search_type, hits@, graph@, opts.max_hops as nat);
    summaries_are_shown(hits@, graph@, opts.max_hops as nat, i);
    let p = said(hits@, i) as int;
    assert(stands_at(c.text, p, text));
    assert(!blank(c.text)) by {
        assert(c.text.subrange(p, p + text.len())[text.len() - 1] == c.text[p + text.len() - 1]);
    }
    let q = r->0;
    let tail = "\n\nQuestion: "@ + query@;
    parts_of_parts("Memory context:\n"@, c.text, tail, p, text.len() as int);
    assert(q.user@ =~= "Memory context:\n"@ + c.text + tail);
}

/// A question answered from the graph is told the description of every node that
/// edges lead to from a hit within the hops asked for, as long as the lines are
/// within the bound.
#[verifier::spinoff_prover]
#[verifier::rlimit(30)]
pub proof fn descriptions_reach_the_model<T>(
    query: &str,
    opts: &RecallOptions,
    hits: &[VectorHit<T>],
    graph: &GraphStore,
    r: Option<Question>,
    i: int,
    path: Seq<int>,
    fields: Seq<(Seq<char>, Json)>,
    at: int,
    description: Seq<char>,
)
    requires
        call_ensures(question::<T>, (query, opts, hits, graph), r),
        opts.search_type == SearchType::GraphCompletion,
        hits@.len() > 0,
        0 <= i < graph@.nodes.len(),
        leads(
            graph@.edges,
            hits@.map_values(|h: VectorHit<T>| h.id@),
            Seq::empty(),
            path,
            graph@.nodes[i].id,
        ),
        path.len() <= opts.max_hops,
        holds_at(graph@.nodes[i].properties, "description"@, fields, at),
        fields[at].1 == Json::Text(description),
        description.len() > 0,
        description.len() <= 300,
        !white(description.last()),
        ({
            let nodes = crate::recall::nodes_around(
                graph@,
                crate::recall::hit_ids(hits@),
                opts.max_hops as nat,
            );
            let lines = crate::recall::graph_lines(
                nodes,
                crate::recall::edges_between(graph@, nodes),
            );
            taken(lines, lines.len() as int) <= 12_000
        }),
    ensures
        r matches Some(q) && stands_in(q.user@, description),
{
    let hops = opts.max_hops as nat;
    let c = crate::recall::context_of(opts.search_type, hits@, graph@, hops);
    let n = graph@.nodes[i];
    assert(!blank(description)) by {
        assert(!white(description[description.len() - 1]));
    }
    description_is_shown(n, fields, at, description);
    every_node_around_has_a_line(hits@, graph@, hops, i, path);
    let nodes = crate::recall::nodes_around(graph@, crate::recall::hit_ids(hits@), hops);
    let lines = crate::recall::graph_lines(nodes, crate::recall::edges_between(graph@, nodes));
    let line = crate::recall::node_line_of(n);
    let k = choose|k: int| 1 <= k <= nodes.len() && #[trigger] lines[k] == line;
    crate::laws::recall::graph_lines_are_laid_out(
        nodes,
        crate::recall::edges_between(graph@, nodes),
    );
    crate::laws::recall::taken_grows(lines, k + 1, lines.len() as int);
    line_stands_in_context(lines, k);
    let p = taken(lines, k) as int;
    let head = crate::recall::label_of_node(n) + " — "@;
    assert(line == head + description);
    assert(line.last() == description.last());
    assert(stands_at(c.text, p, line));
    let from = p + head.len();
    assert(c.text.subrange(from, from + description.len()) =~= line.subrange(
        head.len() as int,
        line.len() as int,
    )) by {
        assert(c.text.subrange(p, p + line.len()) == line);
        assert forall|j: int| 0 <= j < description.len() implies #[trigger] description[j]
            == c.text[from + j] by {
            assert(c.text.subrange(p, p + line.len())[head.len() + j] == c.text[from + j]);
            assert(line[head.len() + j] == description[j]);
        }
        assert(c.text.subrange(from, from + description.len()) =~= description);
        assert(line.subrange(head.len() as int, line.len() as int) =~= description);
    }
    assert(line.subrange(head.len() as int, line.len() as int) =~= description);
    assert(!blank(c.text)) by {
        assert(c.text.subrange(from, from + description.len())[description.len() - 1]
            == c.text[from + description.len() - 1]);
    }
    let q = r->0;
    let tail = "\n\nQuestion: "@ + query@;
    parts_of_parts("Memory context:\n"@, c.text, tail, from, description.len() as int);
    assert(q.user@ =~= "Memory context:\n"@ + c.text + tail);
}

/// The outcome gives the answer, what it was sought from and how much that was.
pub proof fn outcomes_tell_the_answer<T>(
    t: SearchType,
    seeds: Vec<VectorHit<T>>,
    q: &Question,
    answer: String,
    r: RecallOutcome<T>,
    none: RecallOutcome<T>,
)
    requires
        call_ensures(answered::<T>, (t, seeds, q, answer), r),
        call_ensures(empty_outcome::<T>, (t,), none),
    ensures
        r.answer@ == answer@,
        r.search_type == t,
        r.seeds@ == seeds@,
        r.reached_nodes == q.reached_nodes,
        r.reached_edges == q.reached_edges,
        r.context_chars == q.context_chars,
        none.answer@ == "未找到相关记忆。"@,
        none.search_type == t,
        none.seeds@.len() == 0,
        none.reached_nodes == 0,
        none.reached_edges == 0,
        none.context_chars == 0,
{
}

// ---------------------------------------------------------------------------
// Remembering
// ---------------------------------------------------------------------------

/// A blank text is refused; one that the dataset keeps already is not stored again,
/// and the report says under which identifier it is kept; any other is to be
/// stored.
pub proof fn plans_are_made(
    data: &str,
    dataset: &str,
    store: &RelationalStore,
    r: Result<Plan, RememberError>,
)
    requires
        call_ensures(plan, (data, dataset, store), r),
    ensures
        r is Err <==> blank(data@),
        r matches Ok(Plan::Existing(report)) ==> {
            &&& exists|j: int|
                0 <= j < store@.data.len() && (#[trigger] store@.data[j]).id == report.data_id@
                    && crate::laws::metadata::keeps_content(
                    store@.datasets,
                    store@.data[j],
                    dataset@,
                    content_hash_of(data@),
                )
            &&& report.skipped_existing
            &&& report.dataset@ == dataset@
            &&& report.chunks == 0
            &&& report.graph_nodes == 0
            &&& report.graph_edges == 0
            &&& report.vectors == 0
        },
        r matches Ok(Plan::Store(hash)) ==> {
            &&& hash@ == content_hash_of(data@)
            &&& forall|j: int|
                0 <= j < store@.data.len() ==> !crate::laws::metadata::keeps_content(
                    store@.datasets,
                    #[trigger] store@.data[j],
                    dataset@,
                    content_hash_of(data@),
                )
        },
{
    crate::laws::metadata::content_is_found(
        store@.datasets,
        store@.data,
        dataset@,
        content_hash_of(data@),
    );
}

/// A source is cut into chunks of at most 1500 tokens; one of fewer characters is
/// one chunk.
pub proof fn sources_are_cut(data: &str, r: Vec<Chunk>)
    requires
        call_ensures(chunk_source, (data,), r),
    ensures
        forall|i: int| 0 <= i < r@.len() ==> tokens_of((#[trigger] r@[i]).text@) <= 1500,
        forall|i: int| 0 <= i < r@.len() ==> (#[trigger] r@[i]).chunk_index == i,
        blank(data@) ==> r@.len() == 0,
        !blank(data@) && data@.len() < 1500 ==> r@.len() == 1,
        crate::ingest::chunk::chunk_ink(crate::ingest::chunk::chunk_views(r@))
            == crate::ingest::chunk::ink(data@),
{
    crate::ingest::chunk::chunks_are_well_made(data@, 1500);
    crate::ingest::chunk::chunking_loses_nothing(data@, 1500);
    let rows = crate::ingest::chunk::chunk_views(r@);
    assert forall|i: int| 0 <= i < r@.len() implies (#[trigger] r@[i]).chunk_index == i by {
        assert(rows[i].chunk_index == i);
    }
    if !blank(data@) && data@.len() < 1500 {
        crate::laws::chunking::short_text_is_one_chunk(data@, 1500);
        assert(rows.len() == r@.len());
    }
}

/// What the model found is taken as it is, unless it found nothing; its summary is
/// taken without white space around it.
pub proof fn findings_are_taken(
    graph: ExtractedGraph,
    g: Result<ExtractedGraph, ExtractError>,
    text: &str,
    s: String,
)
    requires
        call_ensures(extract_graph, (graph,), g),
        call_ensures(summarize, (text,), s),
    ensures
        graph.nodes@.len() > 0 ==> g == Ok::<ExtractedGraph, ExtractError>(graph),
        graph.nodes@.len() == 0 ==> g is Err,
        s@ == trim_of(text@),
{
}

/// Registering a text adds a row under its identifier, with its content and its
/// dataset, and changes no other row. An identifier that is taken is refused.
pub proof fn texts_are_registered(
    data: &str,
    name: &str,
    intake: &Intake,
    store: &mut RelationalStore,
    r: Result<Uuid, RememberError>,
)
    requires
        call_ensures(register, (data, name, intake, store), r),
    ensures
        final(store)@.users == old(store)@.users,
        r matches Ok(dataset) ==> {
            let rows = final(store)@.data;
            &&& rows.len() == old(store)@.data.len() + 1
            &&& rows.drop_last() == old(store)@.data
            &&& rows.last().id == simple_text(intake.data_id.value)
            &&& rows.last().content_hash == Some(content_hash_of(data@))
            &&& rows.last().dataset_id == Some(simple_text(dataset.value))
            &&& forall|j: int|
                0 <= j < old(store)@.data.len() ==> (#[trigger] old(store)@.data[j]).id
                    != simple_text(intake.data_id.value)
        },
        r is Err ==> final(store)@.data == old(store)@.data,
{
}

/// What a text gives the graph: for each chunk a point with its text and one with
/// its own summary, in that order behind the document.
pub proof fn texts_are_committed(
    graph: &mut GraphStore,
    chunks: &[Chunk],
    graphs: &[ExtractedGraph],
    summaries: &[String],
    src: &Source,
    dataset: Uuid,
    data: Uuid,
    run: Uuid,
    c: Committed,
    k: int,
)
    requires
        call_ensures(commit, (graph, chunks, graphs, summaries, src, dataset, data, run), c),
        0 <= k < chunks@.len(),
        k < graphs@.len(),
    ensures
        ({
            let p = c.datapoints@[2 * k + 1];
            let s = c.datapoints@[2 * k + 2];
            let i = chunks@[k].chunk_index as int;
            &&& c.datapoints@.len() >= 2 * k + 3
            &&& p.id.value == chunks@[k].id.value
            &&& p.type_@ == "DocumentChunk"@
            &&& p.embeddable_text@ == chunks@[k].text@
            &&& s.id.value == text_summary_id_of(chunks@[k].id.value)
            &&& s.type_@ == "TextSummary"@
            &&& (i < summaries@.len() ==> s.embeddable_text@ == summaries@[i]@)
            &&& (i < summaries@.len() ==> under(s@.properties, "text"@) == Some(
                Json::Text(summaries@[i]@),
            ))
        }),
        final(graph)@.nodes.len() == old(graph)@.nodes.len() + c.graph_nodes,
        final(graph)@.edges.len() == old(graph)@.edges.len() + c.graph_edges,
{
    let ids = crate::ingest::assemble::chunk_ids(chunks@);
    let rows = crate::ingest::chunk::chunk_views(chunks@);
    let found = crate::ingest::extract::graph_views(graphs@);
    let said = views(summaries@);
    crate::laws::remembering::chunk_is_kept(src@, ids, rows, found, said, k);
    crate::laws::remembering::summary_is_kept(src@, ids, rows, found, said, k);
    let points = crate::ingest::assemble::point_views(c.datapoints@);
    assert(points.len() == c.datapoints@.len());
    assert(rows[k] == chunks@[k]@);
    assert(ids[k] == chunks@[k].id.value);
    assert(points[2 * k + 1] == c.datapoints@[2 * k + 1]@);
    assert(points[2 * k + 2] == c.datapoints@[2 * k + 2]@);
    let i = chunks@[k].chunk_index as int;
    if i < summaries@.len() {
        assert(said[i] == summaries@[i]@);
    }
}

/// The report on a text that was stored gives what was counted, and its row is
/// recorded as completed.
pub proof fn texts_are_reported(
    store: &mut RelationalStore,
    name: &str,
    hash: &str,
    dataset: Uuid,
    data: Uuid,
    run: Uuid,
    chunks: usize,
    nodes: usize,
    edges: usize,
    vectors: usize,
    now: &str,
    r: Result<RememberReport, RememberError>,
)
    requires
        call_ensures(
            finish,
            (store, name, hash, dataset, data, run, chunks, nodes, edges, vectors, now),
            r,
        ),
    ensures
        final(store)@.users == old(store)@.users,
        final(store)@.datasets == old(store)@.datasets,
        final(store)@.data.len() == old(store)@.data.len(),
        r matches Ok(report) ==> {
            &&& report.dataset@ == name@
            &&& report.data_id@ == uuid_text(data.value)
            &&& report.content_hash@ == hash@
            &&& report.chunks == chunks
            &&& report.graph_nodes == nodes
            &&& report.graph_edges == edges
            &&& report.vectors == vectors
            &&& !report.skipped_existing
            &&& forall|j: int|
                0 <= j < old(store)@.data.len() && (#[trigger] old(store)@.data[j]).id
                    != simple_text(data.value) ==> final(store)@.data[j] == old(store)@.data[j]
        },
        r is Err ==> final(store)@ == old(store)@,
{
    let id = simple_text(data.value);
    crate::storage::relational::data_index_is_first(old(store)@.data, id);
    if r is Ok {
        assert forall|j: int|
            0 <= j < old(store)@.data.len() && (#[trigger] old(store)@.data[j]).id
                != id implies final(store)@.data[j] == old(store)@.data[j] by {
            crate::laws::metadata::recording_changes_one_row(
                old(store)@.data,
                id,
                Seq::empty(),
                now@,
                j,
            );
        }
    }
}

// ---------------------------------------------------------------------------
// Forgetting
// ---------------------------------------------------------------------------

/// Everything is forgotten where that is asked. Else a data item is, in the dataset
/// told by name or failing that by identifier; else the dataset; and without a
/// dataset nothing is.
pub proof fn targets_are_resolved(
    data_id: Option<Uuid>,
    dataset: Option<String>,
    dataset_id: Option<Uuid>,
    everything: bool,
    r: Result<ForgetTarget, ForgetError>,
)
    requires
        call_ensures(resolve_target, (data_id, dataset, dataset_id, everything), r),
    ensures
        everything <==> r matches Ok(ForgetTarget::Everything),
        !everything && dataset is None && dataset_id is None ==> r is Err,
        !everything ==> (dataset matches Some(name) ==> (data_id matches Some(d) ==> r matches Ok(
            ForgetTarget::DataItem { dataset: DatasetKey::Name(n), data_id: i },
        ) && n@ == name@ && i == d)),
        !everything && data_id is None ==> (dataset matches Some(name) ==> r matches Ok(
            ForgetTarget::Dataset { dataset: DatasetKey::Name(n) },
        ) && n@ == name@),
        !everything && dataset is None ==> (dataset_id matches Some(id) ==> (data_id matches Some(
            d,
        ) ==> r matches Ok(ForgetTarget::DataItem { dataset: DatasetKey::Id(u), data_id: i }) && u
            == id && i == d)),
        !everything && dataset is None && data_id is None ==> (dataset_id matches Some(id)
            ==> r matches Ok(ForgetTarget::Dataset { dataset: DatasetKey::Id(u) }) && u == id),
{
}

/// Forgetting everything leaves no row of a listed dataset, and nothing in the graph
/// names a data item of one among its owners. Identifiers are spelled as they are
/// stored.
pub proof fn everything_is_forgotten(
    graph: &mut GraphStore,
    store: &mut RelationalStore,
    r: Result<Forgotten, ForgetError>,
    k: int,
    v: u128,
    j: int,
    w: u128,
)
    requires
        call_ensures(forget, (&ForgetTarget::Everything, graph, store), r),
        r is Ok,
        0 <= k < old(store)@.datasets.len(),
        stored_uuid(old(store)@.datasets[k].id) == Some(v as int),
        0 <= j < old(store)@.data.len(),
        old(store)@.data[j].id == simple_text(w),
        old(store)@.data[j].dataset_id == Some(simple_text(v)),
        forall|i: int|
            0 <= i < old(store)@.data.len() ==> exists|x: u128|
                (#[trigger] old(store)@.data[i]).id == simple_text(x),
    ensures
        r->Ok_0.report.data_items >= 1,
        forall|i: int|
            0 <= i < final(store)@.data.len() ==> (#[trigger] final(store)@.data[i]).dataset_id
                != Some(simple_text(v)),
        knows_nothing_of(
            final(graph)@,
            "source_ref:v1:"@ + uuid_text(v) + ":"@ + uuid_text(w),
        ),
        final(store)@.datasets == old(store)@.datasets,
        final(graph)@.metadata == old(graph)@.metadata,
{
    let rel = old(store)@;
    let g = old(graph)@;
    let items = crate::forget::items_of(rel, ForgetTarget::Everything)->0;
    crate::storage::dashless::stored_reads_back(w);
    everything_is_every_item(rel, items, k, v, j, w);
    let item = (Uuid { value: w }, Uuid { value: v });
    let m = choose|m: int| 0 <= m < items.len() && items[m] == item;
    forgotten_is_gone(g, rel.data, items);
    counts_add_up(g, rel.data, items);
    assert(knows_nothing_of(
        crate::forget::swept(g, rel.data, items).graph,
        crate::forget::item_key(items[m]),
    ));
    assert forall|i: int| 0 <= i < final(store)@.data.len() implies (
    #[trigger] final(store)@.data[i]).dataset_id != Some(simple_text(v)) by {
        everything_leaves_no_row(g, rel, items, k, v, i);
    }
}

/// Forgetting a data item forgets that one alone: nothing names it among its owners
/// any more, its row is gone, and every other row stays. What is reported deleted
/// and what is left add up.
pub proof fn data_item_is_forgotten(
    key: DatasetKey,
    data_id: Uuid,
    graph: &mut GraphStore,
    store: &mut RelationalStore,
    r: Result<Forgotten, ForgetError>,
    k: int,
    v: u128,
    d: crate::storage::relational::DataEntry,
)
    requires
        call_ensures(
            forget,
            (&ForgetTarget::DataItem { dataset: key, data_id }, graph, store),
            r,
        ),
        tells(old(store)@.datasets, key, k),
        stored_uuid(old(store)@.datasets[k].id) == Some(v as int),
    ensures
        r matches Ok(f) && {
            &&& f.report.data_items == 1
            &&& f.report.nodes_deleted + final(graph)@.nodes.len() == old(graph)@.nodes.len()
            &&& f.report.edges_deleted + final(graph)@.edges.len() == old(graph)@.edges.len()
        },
        knows_nothing_of(
            final(graph)@,
            "source_ref:v1:"@ + uuid_text(v) + ":"@ + uuid_text(data_id.value),
        ),
        final(store)@.data.contains(d) <==> old(store)@.data.contains(d) && d.id != simple_text(
            data_id.value,
        ),
        final(store)@.datasets == old(store)@.datasets,
        final(store)@.users == old(store)@.users,
{
    let rel = old(store)@;
    let g = old(graph)@;
    crate::laws::forgetting::data_item_is_itself(rel, key, data_id, k, v);
    let items = seq![(data_id, Uuid { value: v })];
    forgotten_is_gone(g, rel.data, items);
    counts_add_up(g, rel.data, items);
    crate::laws::forgetting::other_rows_stay(g, rel.data, items, d);
    assert(items[0] == (data_id, Uuid { value: v }));
    assert(knows_nothing_of(
        crate::forget::swept(g, rel.data, items).graph,
        crate::forget::item_key(items[0]),
    ));
}

/// Ending a forget drops the datasets of the target and completes the report with
/// the vectors and the datasets that went.
pub proof fn forgetting_is_ended(
    target: &ForgetTarget,
    store: &mut RelationalStore,
    report: ForgetReport,
    vectors: usize,
    r: ForgetReport,
)
    requires
        call_ensures(finish_forget, (target, store, report, vectors), r),
    ensures
        final(store)@.data == old(store)@.data,
        final(store)@.users == old(store)@.users,
        r.data_items == report.data_items,
        r.nodes_deleted == report.nodes_deleted,
        r.nodes_detached == report.nodes_detached,
        r.edges_deleted == report.edges_deleted,
        r.vectors_deleted == vectors,
        *target is Everything ==> final(store)@.datasets.len() == 0 && r.datasets_deleted == old(
            store,
        )@.datasets.len(),
        *target is Dataset ==> r.datasets_deleted == 1,
        *target is DataItem ==> final(store)@.datasets == old(store)@.datasets,
{
}

// ---------------------------------------------------------------------------
// Repairing
// ---------------------------------------------------------------------------

/// A repair brings back what the dump holds of a node that the graph lacks, in every
/// column, and leaves the nodes that are there as they are.
pub proof fn lost_nodes_are_restored(
    graph: &mut GraphStore,
    dump: &[Doc],
    r: DoctorReport,
    j: int,
    id: Seq<char>,
    n: NodeRow,
)
    requires
        call_ensures(repair_graph_from_dump, (graph, dump), r),
        0 <= j < dump@.len(),
        column(dump@[j]@, "id"@) == Some(id),
        forall|i: int|
            0 <= i < old(graph)@.nodes.len() ==> (#[trigger] old(graph)@.nodes[i]).id != id,
        forall|i: int| j < i < dump@.len() ==> column((#[trigger] dump@[i])@, "id"@) != Some(id),
    ensures
        r.nodes_restored >= 1,
        exists|i: int|
            0 <= i < final(graph)@.nodes.len() && holds_columns(
                #[trigger] final(graph)@.nodes[i],
                dump@[j]@,
            ),
        old(graph)@.nodes.contains(n) ==> final(graph)@.nodes.contains(n),
        final(graph)@.metadata == old(graph)@.metadata,
{
    lost_node_comes_back(old(graph)@, dump@, j, id);
    if old(graph)@.nodes.contains(n) {
        live_nodes_stay(old(graph)@, dump@, n);
    }
    let pred = crate::doctor::row_missing(old(graph)@.nodes);
    crate::lists::filter_members(dump@, pred);
    assert(pred(dump@[j]));
    assert(dump@.contains(dump@[j]));
    assert(dump@.filter(pred).contains(dump@[j]));
}

/// What healing a table finds missing are the live nodes that it does not hold; what
/// it finds stale are the identifiers that it holds and no live node has.
pub proof fn tables_are_healed(
    nodes: &[GraphNode],
    at: &[usize],
    present: &[String],
    r: Healing,
    k: usize,
    id: Seq<char>,
)
    requires
        call_ensures(heal_table, (nodes, at, present), r),
    ensures
        r.missing@.contains(k) <==> at@.contains(k) && !views(present@).contains(
            node_views(nodes@)[k as int].id,
        ),
        views(r.stale@).contains(id) <==> views(present@).contains(id)
            && !crate::doctor::ids_at(node_views(nodes@), at@).contains(id),
{
    let rows = node_views(nodes@);
    let wanted = |x: usize| crate::doctor::not_among(views(present@))(rows[x as int].id);
    crate::lists::filter_members(at@, wanted);
    assert(r.missing@ =~= at@.filter(wanted));
    assert(at@.filter(wanted).contains(k) <==> at@.contains(k) && wanted(k));
    crate::laws::repairing::stale_vectors_are_purged(
        views(present@),
        crate::doctor::ids_at(rows, at@),
        id,
    );
}

/// Identifiers that a table holds more than once are found, each once, and counted
/// with the stale ones as purged.
pub proof fn repetitions_are_found(
    ids: &Vec<String>,
    r: Vec<String>,
    id: Seq<char>,
    report: DoctorReport,
    added: usize,
    stale: usize,
    repeated: usize,
    after: DoctorReport,
)
    requires
        call_ensures(repeated_ids, (ids,), r),
        call_ensures(count_healing, (report, added, stale, repeated), after),
    ensures
        views(r@).contains(id) <==> count_of(views(ids@), id) > 1,
        views(r@).no_duplicates(),
        after.vectors_added == report.vectors_added + added,
        after.vectors_purged == report.vectors_purged + stale + repeated,
        after.nodes_restored == report.nodes_restored,
        after.edges_deleted == report.edges_deleted,
{
}

/// The rows of healed nodes hold their identifiers and vectors, in order.
pub proof fn healed_rows_hold_their_nodes<T>(
    nodes: &[GraphNode],
    at: &[usize],
    vectors: Vec<Vec<T>>,
    r: Vec<VectorRow<T>>,
    k: int,
)
    requires
        call_ensures(node_rows::<T>, (nodes, at, vectors), r),
        at@.len() == vectors@.len(),
        0 <= k < at@.len(),
    ensures
        r@.len() == at@.len(),
        r@[k].id@ == nodes@[at@[k] as int].id@,
        r@[k].vector@ == vectors@[k]@,
{
    assert(crate::doctor::is_node_row(r@[k], nodes@[at@[k] as int]@, vectors@[k]@));
}

// ---------------------------------------------------------------------------
// Importing
// ---------------------------------------------------------------------------

/// An import gives the graph of the dump. It succeeds exactly where no node
/// identifier occurs twice and the summary, if there is one, gives the counts.
pub proof fn dumps_are_imported(
    nodes: Vec<GraphNode>,
    edges: Vec<GraphEdge>,
    metadata: Vec<MetadataRow>,
    summary: &Option<DumpSummary>,
    r: (GraphStore, Result<ImportReport, Vec<String>>),
)
    requires
        call_ensures(import, (nodes, edges, metadata, summary), r),
    ensures
        r.1 is Ok <==> distinct_ids(node_views(nodes@)) && (*summary matches Some(s) ==> s.nodes
            == nodes@.len() && s.edges == edges@.len() && s.metadata == metadata@.len()),
        r.1 matches Ok(report) ==> report.nodes == nodes@.len() && report.edges == edges@.len()
            && report.metadata == metadata@.len(),
        r.0@.edges.len() == edges@.len(),
        forall|i: int| 0 <= i < edges@.len() ==> r.0@.edges[i] == (#[trigger] edges@[i])@,
{
    crate::migrate::import_succeeds_iff_counts_agree(nodes@, edges@, metadata@, *summary);
}

// ---------------------------------------------------------------------------
// Models
// ---------------------------------------------------------------------------

/// Vectors are used only where there is one of the expected width for each text.
pub proof fn vectors_are_checked<T>(
    vectors: Vec<Vec<T>>,
    texts: usize,
    dimensions: usize,
    r: Result<Vec<Vec<T>>, EmbedError>,
)
    requires
        call_ensures(check_vectors::<T>, (vectors, texts, dimensions), r),
    ensures
        r is Ok <==> vectors@.len() == texts && forall|i: int|
            0 <= i < vectors@.len() ==> (#[trigger] vectors@[i])@.len() == dimensions,
        r matches Ok(v) ==> v@ == vectors@,
{
    if let Err(EmbedError::Dimensions { got, expected }) = r {
        let i = choose|i: int|
            0 <= i < vectors@.len() && (#[trigger] vectors@[i])@.len() == got && forall|j: int|
                0 <= j < i ==> (#[trigger] vectors@[j])@.len() == dimensions;
        assert(vectors@[i]@.len() != dimensions);
    }
}

/// The first message of a reply is what is answered.
pub proof fn first_message_answers(messages: &[Message], r: Result<String, LlmError>)
    requires
        call_ensures(read_reply, (messages,), r),
    ensures
        messages@.len() == 0 ==> r == Err::<String, LlmError>(LlmError::NoChoices),
        messages@.len() > 0 ==> (r matches Ok(a) ==> crate::llm::answer_of(
            opt_view(messages@[0].content),
        ) == Some(a@)),
        messages@.len() > 0 && crate::llm::answer_of(opt_view(messages@[0].content)) is Some
            ==> r is Ok,
{
}

// ---------------------------------------------------------------------------
// Requests
// ---------------------------------------------------------------------------

/// A question that says nothing more asks for five summaries, two hops away; what it
/// says is kept within limits.
pub proof fn question_options_are_read(
    p: &RecallParams,
    r: Result<RecallOptions, UnknownSearchType>,
)
    requires
        call_ensures(recall_options, (p,), r),
    ensures
        p.search_type is None ==> r is Ok && r->Ok_0.search_type == SearchType::Summaries,
        r matches Ok(o) ==> {
            &&& 1 <= o.top_k <= 50
            &&& o.max_hops <= 6
            &&& (p.top_k is None ==> o.top_k == 5)
            &&& (p.top_k matches Some(k) ==> (1 <= k <= 50 ==> o.top_k == k))
            &&& (p.hops is None ==> o.max_hops == 2)
            &&& (p.hops matches Some(h) ==> (h <= 6 ==> o.max_hops == h))
            &&& o.system_prompt is None
        },
{
}

/// A request to forget names its data item and its dataset by identifiers that can
/// be read, or is refused.
pub proof fn forget_requests_are_read(p: &ForgetParams, r: Result<ForgetTarget, RequestError>)
    requires
        call_ensures(forget_target, (p,), r),
    ensures
        p.data_id matches Some(raw) ==> (parsed_uuid(raw@) is None ==> r is Err),
        p.dataset_id matches Some(raw) ==> (parsed_uuid(raw@) is None ==> r is Err),
        r matches Ok(ForgetTarget::DataItem { dataset, data_id }) ==> p.data_id is Some
            && parsed_uuid(p.data_id->0@) is Some && data_id.value == parsed_uuid(
            p.data_id->0@,
        )->0 as u128,
        r matches Ok(ForgetTarget::Dataset { .. }) ==> p.data_id is None && !p.everything,
        r matches Ok(ForgetTarget::Everything) ==> p.everything,
{
}

/// A text goes into the dataset named, or into the main one.
pub proof fn texts_go_to_their_dataset(p: &RememberParams, r: String)
    requires
        call_ensures(target_dataset, (p,), r),
    ensures
        p.dataset_name matches Some(name) ==> r@ == name@,
        p.dataset_name is None ==> r@ == "main_dataset"@,
{
}

/// A caller passes with the expected token behind `Bearer`, and only then.
pub proof fn callers_need_the_token(header: Option<&str>, expected: &str, r: bool, t: Seq<char>)
    requires
        call_ensures(authorized, (header, expected), r),
    ensures
        header is None ==> !r,
        header matches Some(h) ==> (h@ == "Bearer "@ + t ==> r == (trim_of(t) == expected@)),
        header matches Some(h) ==> (h@.len() < 7 || h@.take(7) != "Bearer "@ ==> !r),
{
    if let Some(h) = header {
        crate::laws::serving::bearer_tokens_are_presented(t, h@);
    }
}

// ---------------------------------------------------------------------------
// Settings
// ---------------------------------------------------------------------------

/// What the command line says of the server comes first.
pub proof fn command_line_comes_first(
    s: McpSettings,
    transport: Option<String>,
    bind: Option<String>,
    token: Option<String>,
    r: McpSettings,
)
    requires
        call_ensures(with_flags, (s, transport, bind, token), r),
    ensures
        transport matches Some(v) ==> r.transport@ == v@,
        transport is None ==> r.transport@ == s.transport@,
        bind matches Some(v) ==> r.bind@ == v@,
        bind is None ==> r.bind@ == s.bind@,
        token matches Some(v) ==> opt_view(r.token) == Some(v@),
        token is None ==> opt_view(r.token) == opt_view(s.token),
{
}

/// Settings are installed once.
pub proof fn settings_are_installed_once(slot: &mut Option<Settings>, settings: Settings)
    requires
        call_ensures(init, (slot, settings), ()),
    ensures
        *old(slot) is Some ==> *final(slot) == *old(slot),
        *old(slot) is None ==> *final(slot) == Some(settings),
{
}

/// Everything is kept below the data root, each store under its own name.
pub proof fn stores_have_their_places(
    s: &Settings,
    root: String,
    databases: String,
    graph: String,
    relational: String,
    vectors: String,
    texts: String,
    sessions: String,
)
    requires
        call_ensures(data_root, (s,), root),
        call_ensures(databases_dir, (s,), databases),
        call_ensures(graph_db_path, (s,), graph),
        call_ensures(relational_db_path, (s,), relational),
        call_ensures(lancedb_path, (s,), vectors),
        call_ensures(text_dir, (s,), texts),
        call_ensures(session_db_path, (s,), sessions),
        s.data_root@.len() > 0,
        s.data_root@.last() != '/',
    ensures
        root@ == s.data_root@,
        databases@ == root@ + "/system/databases"@,
        graph@ == root@ + "/system/databases/"@ + "reflect-mem.graph.sqlite"@,
        relational@ == root@ + "/system/databases/"@ + "reflect-mem.sqlite"@,
        vectors@ == root@ + "/system/databases/"@ + "reflect-mem.lancedb"@,
        texts@ == root@ + "/data"@,
        sessions@ == root@ + "/system/databases/"@ + "reflect-mem.session.sqlite"@,
{
    crate::laws::configuring::databases_have_their_place(s.data_root@);
    reveal_strlit("reflect-mem.graph.sqlite");
    reveal_strlit("reflect-mem.sqlite");
    reveal_strlit("reflect-mem.lancedb");
    reveal_strlit("reflect-mem.session.sqlite");
    place_below_databases(s.data_root@, "reflect-mem.graph.sqlite"@);
    place_below_databases(s.data_root@, "reflect-mem.sqlite"@);
    place_below_databases(s.data_root@, "reflect-mem.lancedb"@);
    place_below_databases(s.data_root@, "reflect-mem.session.sqlite"@);
    reveal_strlit("/");
    reveal_strlit("data");
    reveal_strlit("/data");
    assert("/"@ + "data"@ =~= "/data"@);
    assert(s.data_root@ + "/"@ + "data"@ =~= s.data_root@ + "/data"@);
}

proof fn place_below_databases(root: Seq<char>, name: Seq<char>)
    requires
        root.len() > 0,
        root.last() != '/',
        name.len() > 0,
        name[0] != '/',
    ensures
        crate::settings::joined_path(crate::config::databases_below(root), name) == root
            + "/system/databases/"@ + name,
{
    crate::laws::configuring::databases_have_their_place(root);
    reveal_strlit("/");
    reveal_strlit("/system/databases");
    reveal_strlit("/system/databases/");
    let below = root + "/system/databases"@;
    assert(below.last() == 's');
    assert("/system/databases"@ + "/"@ =~= "/system/databases/"@);
    assert(below + "/"@ =~= root + "/system/databases/"@);
}

} // verus!
