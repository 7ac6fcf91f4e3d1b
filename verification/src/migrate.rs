//! Importing a dumped graph.
//!
//! A dump holds one document per line for nodes, edges and metadata, and may
//! come with a summary that says how many there are of each.

use vstd::prelude::*;
use vstd::string::*;

use crate::json::Doc;
use crate::number::{count_text, dec, dec_int, int_text};
use crate::pattern::{join, join_of};
use crate::storage::graph::{
    distinct_ids, edge_views, filter_of_absent, has_node, node_other_than, node_views, pair_views,
    put_metadata, put_nodes, Graph, GraphEdge, GraphNode, GraphStore, NodeRow,
};
use crate::text::{blank, concat2, concat3, is_blank, opt_view, owned, views};

verus! {

/// What a dump says of itself.
#[derive(Debug)]
pub struct DumpSummary {
    pub nodes: i64,
    pub edges: i64,
    pub metadata: i64,
    pub storage_version: Option<Doc>,
    pub source: Option<String>,
}

/// A row of metadata in a dump.
#[derive(Debug)]
pub struct MetadataRow {
    pub key: String,
    pub value: Option<String>,
}

/// What was imported.
#[derive(Debug, PartialEq)]
pub struct ImportReport {
    pub nodes: usize,
    pub edges: usize,
    pub metadata: usize,
}

// ---------------------------------------------------------------------------
// Lines
// ---------------------------------------------------------------------------

/// The lines that are not blank, each with its number, counted from one.
pub open spec fn numbered(lines: Seq<Seq<char>>) -> Seq<(nat, Seq<char>)>
    decreases lines.len(),
{
    if lines.len() == 0 {
        Seq::empty()
    } else if blank(lines.last()) {
        numbered(lines.drop_last())
    } else {
        numbered(lines.drop_last()).push((lines.len(), lines.last()))
    }
}

/// The views of numbered lines.
pub open spec fn line_views(lines: Seq<(usize, String)>) -> Seq<(nat, Seq<char>)> {
    lines.map_values(|l: (usize, String)| (l.0 as nat, l.1@))
}

/// The lines of a dump that hold something, each with its number.
pub fn data_lines(lines: &[String]) -> (r: Vec<(usize, String)>)
    ensures
        line_views(r@) == numbered(views(lines@)),
{
    let ghost all = views(lines@);
    let mut out: Vec<(usize, String)> = Vec::new();
    let n: usize = lines.len();
    let mut i: usize = 0;
    assert(line_views(out@) =~= numbered(all.take(0)));
    while i < n
        invariant
            i <= n,
            n == lines@.len(),
            all == views(lines@),
            line_views(out@) == numbered(all.take(i as int)),
        decreases n - i,
    {
        let ghost before = line_views(out@);
        assert(all.take(i + 1).drop_last() =~= all.take(i as int));
        if !is_blank(lines[i].as_str()) {
            out.push((i + 1, owned(lines[i].as_str())));
            assert(line_views(out@) =~= before.push(((i + 1) as nat, all[i as int])));
        }
        i += 1;
    }
    assert(all.take(all.len() as int) =~= all);
    out
}

// ---------------------------------------------------------------------------
// Reconciling
// ---------------------------------------------------------------------------

/// The metadata of rows; a missing value is empty.
pub open spec fn metadata_pairs(rows: Seq<MetadataRow>) -> Seq<(Seq<char>, Seq<char>)> {
    rows.map_values(
        |m: MetadataRow|
            (
                m.key@,
                match opt_view(m.value) {
                    Some(v) => v,
                    None => Seq::empty(),
                },
            ),
    )
}

/// The summary gives another count than was imported.
pub open spec fn summary_problem(what: Seq<char>, said: int, found: nat) -> Seq<Seq<char>> {
    if said == found {
        Seq::empty()
    } else {
        seq![what + ": summary says "@ + dec_int(said) + ", imported "@ + dec(found)]
    }
}

/// The store holds another count than was inserted.
pub open spec fn store_problem(what: Seq<char>, inserted: nat, held: nat) -> Seq<Seq<char>> {
    if inserted == held {
        Seq::empty()
    } else {
        seq![what + ": inserted "@ + dec(inserted) + ", db holds "@ + dec(held)]
    }
}

/// The counts that do not agree.
pub open spec fn problems_of(
    summary: Option<DumpSummary>,
    nodes: nat,
    edges: nat,
    metadata: nat,
    stored_nodes: nat,
    stored_edges: nat,
) -> Seq<Seq<char>> {
    let said = match summary {
        Some(s) => summary_problem("nodes"@, s.nodes as int, nodes) + summary_problem(
            "edges"@,
            s.edges as int,
            edges,
        ) + summary_problem("metadata"@, s.metadata as int, metadata),
        None => Seq::empty(),
    };
    said + store_problem("nodes"@, nodes, stored_nodes) + store_problem(
        "edges"@,
        edges,
        stored_edges,
    )
}

/// Notes a count of the summary that does not agree.
fn note_summary(problems: &mut Vec<String>, what: &str, said: i64, found: usize)
    ensures
        views(final(problems)@) == views(old(problems)@) + summary_problem(
            what@,
            said as int,
            found as nat,
        ),
{
    let ghost before = views(problems@);
    if said < 0 || said as u64 != found as u64 {
        let mut line = concat3(what, ": summary says ", int_text(said).as_str());
        line.append(", imported ");
        line.append(count_text(found).as_str());
        let ghost text = line@;
        problems.push(line);
        assert(text =~= what@ + ": summary says "@ + dec_int(said as int) + ", imported "@ + dec(
            found as nat,
        ));
        assert(views(problems@) =~= before.push(text));
        assert(before.push(text) =~= before + seq![text]);
    } else {
        assert(before + Seq::empty() =~= before);
    }
}

/// Notes a count of the store that does not agree.
fn note_store(problems: &mut Vec<String>, what: &str, inserted: usize, held: usize)
    ensures
        views(final(problems)@) == views(old(problems)@) + store_problem(
            what@,
            inserted as nat,
            held as nat,
        ),
{
    let ghost before = views(problems@);
    if inserted != held {
        let mut line = concat3(what, ": inserted ", count_text(inserted).as_str());
        line.append(", db holds ");
        line.append(count_text(held).as_str());
        let ghost text = line@;
        problems.push(line);
        assert(text =~= what@ + ": inserted "@ + dec(inserted as nat) + ", db holds "@ + dec(
            held as nat,
        ));
        assert(views(problems@) =~= before.push(text));
        assert(before.push(text) =~= before + seq![text]);
    } else {
        assert(before + Seq::empty() =~= before);
    }
}

/// The counts that do not agree.
pub fn reconcile(
    summary: &Option<DumpSummary>,
    nodes: usize,
    edges: usize,
    metadata: usize,
    stored_nodes: usize,
    stored_edges: usize,
) -> (r: Vec<String>)
    ensures
        views(r@) == problems_of(
            *summary,
            nodes as nat,
            edges as nat,
            metadata as nat,
            stored_nodes as nat,
            stored_edges as nat,
        ),
{
    let mut problems: Vec<String> = Vec::new();
    assert(views(problems@) =~= Seq::empty());
    match summary {
        Some(s) => {
            note_summary(&mut problems, "nodes", s.nodes, nodes);
            note_summary(&mut problems, "edges", s.edges, edges);
            note_summary(&mut problems, "metadata", s.metadata, metadata);
            assert(views(problems@) =~= summary_problem("nodes"@, s.nodes as int, nodes as nat)
                + summary_problem("edges"@, s.edges as int, edges as nat) + summary_problem(
                "metadata"@,
                s.metadata as int,
                metadata as nat,
            ));
        },
        None => {},
    }
    note_store(&mut problems, "nodes", nodes, stored_nodes);
    note_store(&mut problems, "edges", edges, stored_edges);
    problems
}

/// What a failed import says.
pub open spec fn failure_of(problems: Seq<Seq<char>>) -> Seq<char> {
    "import reconciliation failed:\n  - "@ + join_of(problems, "\n  - "@)
}

/// What a failed import says.
pub fn failure_text(problems: &[String]) -> (r: String)
    ensures
        r@ == failure_of(views(problems@)),
{
    let list = join(problems, "\n  - ");
    concat2("import reconciliation failed:\n  - ", list.as_str())
}

/// The metadata of rows, owned.
fn pairs_of(rows: Vec<MetadataRow>) -> (r: Vec<(String, String)>)
    ensures
        pair_views(r@) == metadata_pairs(rows@),
{
    let ghost all = metadata_pairs(rows@);
    let mut out: Vec<(String, String)> = Vec::new();
    for m in it: rows
        invariant
            all == metadata_pairs(it.seq()),
            out@.len() == it.index(),
            forall|k: int| 0 <= k < out@.len() ==> ((#[trigger] out@[k]).0@, out@[k].1@) == all[k],
    {
        let ghost i = it.index() as int;
        let value = match m.value {
            Some(v) => v,
            None => String::new(),
        };
        assert(all[i] == (m.key@, value@)) by {
            assert(value@ =~= (match opt_view(it.seq()[i].value) {
                Some(v) => v,
                None => Seq::empty(),
            }));
        }
        out.push((m.key, value));
    }
    assert(pair_views(out@) =~= all);
    out
}

/// The graph that a dump gives.
pub open spec fn imported(
    nodes: Seq<GraphNode>,
    edges: Seq<GraphEdge>,
    metadata: Seq<MetadataRow>,
) -> Graph {
    Graph {
        nodes: put_nodes(Seq::empty(), node_views(nodes)),
        edges: edge_views(edges),
        metadata: put_metadata(Seq::empty(), metadata_pairs(metadata)),
    }
}

/// Imports the rows of a dump into a fresh graph, which is given in any case;
/// where counts do not agree, the problems are given with it.
pub fn import(
    nodes: Vec<GraphNode>,
    edges: Vec<GraphEdge>,
    metadata: Vec<MetadataRow>,
    summary: &Option<DumpSummary>,
) -> (r: (GraphStore, Result<ImportReport, Vec<String>>))
    ensures
        ({
            let g = imported(nodes@, edges@, metadata@);
            let problems = problems_of(
                *summary,
                nodes@.len(),
                edges@.len(),
                metadata@.len(),
                g.nodes.len(),
                g.edges.len(),
            );
            &&& r.0@ == g
            &&& r.0.valid()
            &&& match r.1 {
                Ok(report) => {
                    &&& problems.len() == 0
                    &&& report.nodes == nodes@.len()
                    &&& report.edges == edges@.len()
                    &&& report.metadata == metadata@.len()
                },
                Err(list) => problems.len() > 0 && views(list@) == problems,
            }
        }),
{
    let n: usize = nodes.len();
    let e: usize = edges.len();
    let m: usize = metadata.len();
    let pairs = pairs_of(metadata);
    let mut store = GraphStore::open_in_memory();
    store.insert_nodes(&nodes);
    store.insert_edges(&edges);
    store.insert_metadata(&pairs);
    assert(Seq::empty() + edge_views(edges@) =~= edge_views(edges@));
    let problems = reconcile(summary, n, e, m, store.node_count(), store.edge_count());
    if problems.len() > 0 {
        return (store, Err(problems));
    }
    (store, Ok(ImportReport { nodes: n, edges: e, metadata: m }))
}

proof fn one_is_left_out(nodes: Seq<NodeRow>, id: Seq<char>)
    requires
        has_node(nodes, id),
    ensures
        nodes.filter(node_other_than(id)).len() < nodes.len(),
    decreases nodes.len(),
{
    reveal(Seq::filter);
    let head = nodes.drop_last();
    head.lemma_filter_len(node_other_than(id));
    if nodes.last().id != id {
        let i = choose|i: int| 0 <= i < nodes.len() && (#[trigger] nodes[i]).id == id;
        assert(head[i].id == id);
        one_is_left_out(head, id);
    }
}

/// Rows written to an empty store are all there exactly where no identifier
/// occurs twice among them.
proof fn all_are_stored(rows: Seq<NodeRow>)
    ensures
        distinct_ids(rows) ==> put_nodes(Seq::empty(), rows) == rows,
        !distinct_ids(rows) ==> put_nodes(Seq::empty(), rows).len() < rows.len(),
    decreases rows.len(),
{
    if rows.len() > 0 {
        let head = rows.drop_last();
        let last = rows.last();
        all_are_stored(head);
        let before = put_nodes(Seq::empty(), head);
        let after = put_nodes(Seq::empty(), rows);
        before.lemma_filter_len(node_other_than(last.id));
        if distinct_ids(rows) {
            assert(distinct_ids(head)) by {
                assert forall|i: int, j: int|
                    #![trigger head[i], head[j]]
                    0 <= i < j < head.len() implies head[i].id != head[j].id by {
                    assert(rows[i] == head[i] && rows[j] == head[j]);
                }
            }
            if has_node(head, last.id) {
                let i = choose|i: int| 0 <= i < head.len() && (#[trigger] head[i]).id == last.id;
                assert(rows[i].id == rows[rows.len() - 1].id);
            }
            filter_of_absent(head, last.id);
            assert(head.push(last) =~= rows);
        } else if distinct_ids(head) {
            assert(has_node(head, last.id)) by {
                let (i, j) = choose|i: int, j: int|
                    #![trigger rows[i], rows[j]]
                    0 <= i < j < rows.len() && rows[i].id == rows[j].id;
                assert(head[i] == rows[i]);
                if j < head.len() {
                    assert(head[j] == rows[j]);
                }
            }
            one_is_left_out(head, last.id);
        }
    }
}

/// An import succeeds exactly where no node identifier occurs twice in the dump
/// and the summary, if there is one, gives the counts of the dump.
pub proof fn import_succeeds_iff_counts_agree(
    nodes: Seq<GraphNode>,
    edges: Seq<GraphEdge>,
    metadata: Seq<MetadataRow>,
    summary: Option<DumpSummary>,
)
    ensures
        ({
            let g = imported(nodes, edges, metadata);
            problems_of(
                summary,
                nodes.len(),
                edges.len(),
                metadata.len(),
                g.nodes.len(),
                g.edges.len(),
            ).len() == 0 <==> distinct_ids(node_views(nodes)) && (summary matches Some(s)
                ==> s.nodes == nodes.len() && s.edges == edges.len() && s.metadata
                == metadata.len())
        }),
{
    all_are_stored(node_views(nodes));
}

} // verus!
