//! What an import brings in, and what it complains of.

use vstd::prelude::*;

use crate::laws::writing::nodes_written_are_there;
use crate::migrate::{
    failure_of, imported, metadata_pairs, numbered, problems_of, DumpSummary, MetadataRow,
};
use crate::number::{dec, dec_int};
use crate::pattern::join_of;
use crate::storage::graph::{metadata_of, node_views, GraphEdge, GraphNode};
use crate::text::blank;

verus! {

/// Every line that says something is read, with its number counted from one, in
/// order; blank lines are passed over.
pub proof fn lines_are_numbered(lines: Seq<Seq<char>>, more: Seq<char>)
    ensures
        numbered(Seq::<Seq<char>>::empty()).len() == 0,
        blank(more) ==> numbered(lines.push(more)) == numbered(lines),
        !blank(more) ==> numbered(lines.push(more)) == numbered(lines).push(
            (lines.len() + 1, more),
        ),
{
    assert(lines.push(more).drop_last() =~= lines);
}

/// A node of a dump is in the graph as the dump has it, where no later row has its
/// identifier; the edges are those of the dump in order.
pub proof fn dump_is_imported(
    nodes: Seq<GraphNode>,
    edges: Seq<GraphEdge>,
    metadata: Seq<MetadataRow>,
    k: int,
)
    requires
        0 <= k < nodes.len(),
        forall|j: int| k < j < nodes.len() ==> (#[trigger] nodes[j]).id@ != nodes[k].id@,
    ensures
        imported(nodes, edges, metadata).nodes.contains(nodes[k]@),
        imported(nodes, edges, metadata).edges.len() == edges.len(),
        forall|i: int|
            0 <= i < edges.len() ==> imported(nodes, edges, metadata).edges[i] == (
            #[trigger] edges[i])@,
{
    let rows = node_views(nodes);
    assert(rows[k] == nodes[k]@);
    assert forall|j: int| k < j < rows.len() implies (#[trigger] rows[j]).id != rows[k].id by {
        assert(nodes[j].id@ != nodes[k].id@);
    }
    nodes_written_are_there(Seq::empty(), rows, rows[k]);
}

/// Metadata is read back under its key, the last row given for it; a row without a
/// value gives the empty one.
pub proof fn metadata_is_imported(
    nodes: Seq<GraphNode>,
    edges: Seq<GraphEdge>,
    metadata: Seq<MetadataRow>,
)
    requires
        metadata.len() > 0,
    ensures
        metadata_of(imported(nodes, edges, metadata).metadata, metadata.last().key@) == (
        match metadata.last().value {
            Some(v) => Some(v@),
            None => Some(Seq::<char>::empty()),
        }),
{
    let pairs = metadata_pairs(metadata);
    crate::storage::graph::metadata_written_is_read(Seq::empty(), pairs);
    assert(pairs.last() == metadata_pairs(metadata)[metadata.len() - 1]);
}

/// Each count that does not agree is named, with both numbers.
pub proof fn problems_name_both_counts(
    summary: Option<DumpSummary>,
    nodes: nat,
    edges: nat,
    metadata: nat,
    stored_nodes: nat,
    stored_edges: nat,
)
    ensures
        ({
            let problems = problems_of(
                summary,
                nodes,
                edges,
                metadata,
                stored_nodes,
                stored_edges,
            );
            &&& (summary matches Some(s) ==> {
                &&& (s.nodes != nodes ==> problems.contains(
                    "nodes"@ + ": summary says "@ + dec_int(s.nodes as int) + ", imported "@ + dec(
                        nodes,
                    ),
                ))
                &&& (s.edges != edges ==> problems.contains(
                    "edges"@ + ": summary says "@ + dec_int(s.edges as int) + ", imported "@ + dec(
                        edges,
                    ),
                ))
                &&& (s.metadata != metadata ==> problems.contains(
                    "metadata"@ + ": summary says "@ + dec_int(s.metadata as int) + ", imported "@
                        + dec(metadata),
                ))
            })
            &&& (nodes != stored_nodes ==> problems.contains(
                "nodes"@ + ": inserted "@ + dec(nodes) + ", db holds "@ + dec(stored_nodes),
            ))
            &&& (edges != stored_edges ==> problems.contains(
                "edges"@ + ": inserted "@ + dec(edges) + ", db holds "@ + dec(stored_edges),
            ))
        }),
{
    let none = Seq::<Seq<char>>::empty();
    let (a, b, c) = match summary {
        Some(s) => (
            crate::migrate::summary_problem("nodes"@, s.nodes as int, nodes),
            crate::migrate::summary_problem("edges"@, s.edges as int, edges),
            crate::migrate::summary_problem("metadata"@, s.metadata as int, metadata),
        ),
        None => (none, none, none),
    };
    let d = crate::migrate::store_problem("nodes"@, nodes, stored_nodes);
    let e = crate::migrate::store_problem("edges"@, edges, stored_edges);
    let all = problems_of(summary, nodes, edges, metadata, stored_nodes, stored_edges);
    assert(all =~= a + b + c + d + e);
    if a.len() > 0 {
        assert(all[0] == a[0]);
    }
    if b.len() > 0 {
        assert(all[a.len() as int] == b[0]);
    }
    if c.len() > 0 {
        assert(all[(a.len() + b.len()) as int] == c[0]);
    }
    if d.len() > 0 {
        assert(all[(a.len() + b.len() + c.len()) as int] == d[0]);
    }
    if e.len() > 0 {
        assert(all[(a.len() + b.len() + c.len() + d.len()) as int] == e[0]);
    }
}

/// A failed import lists its problems, one to a line.
pub proof fn failure_lists_problems(problems: Seq<Seq<char>>, more: Seq<char>)
    requires
        problems.len() > 0,
    ensures
        failure_of(seq![more]) == "import reconciliation failed:\n  - "@ + more,
        failure_of(problems.push(more)) == failure_of(problems) + "\n  - "@ + more,
{
    assert(problems.push(more).drop_last() =~= problems);
    let head = "import reconciliation failed:\n  - "@;
    assert(head + (join_of(problems, "\n  - "@) + "\n  - "@ + more) =~= head + join_of(
        problems,
        "\n  - "@,
    ) + "\n  - "@ + more);
}

} // verus!
