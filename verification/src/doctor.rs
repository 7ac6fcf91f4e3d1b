//! Repairing the stores.
//!
//! Nodes that a dump holds and the graph does not are put back, and edges that
//! occur twice or lead nowhere go. The vector tables are then brought in line
//! with the graph: what a live node lacks is embedded again, and what belongs to
//! no live node goes.

use vstd::prelude::*;
use vstd::string::*;

use crate::json::{member_text, Doc, Json};
use crate::lists::{filter_ends, filter_members, filter_step, filters_agree};
use crate::forget::{node_tables, properties_of, read_properties, tables_for_node};
use crate::pattern::{starts_of, strip_prefix};
use crate::storage::graph::{
    dedup_of, distinct_ids, edge_dangling, edge_key, edge_not_between, has_node,
    node_index_is_first, node_views, pair_views, put_nodes, triple_views, type_or_empty, EdgeRow,
    Graph, GraphNode, GraphStore, NodeRow,
};
use crate::storage::groups::{ascending, entry_map, items_under, with_item, Groups};
use crate::storage::histogram::{
    count_is_positive_iff_contained, count_of, count_views, histogram_of, named_in, tally,
};
use crate::storage::refs::equal_to;
use crate::storage::vector_writer::{payload_of, row_payload, VectorRow};
use crate::text::{
    concat2, or_empty, owned, same, text_set, unique, unique_keeps_each_once, unique_of, views,
};

verus! {

/// What a repair did.
#[derive(Debug, PartialEq)]
pub struct DoctorReport {
    pub nodes_restored: usize,
    pub edges_deleted: usize,
    pub vectors_added: usize,
    pub vectors_purged: usize,
}

impl Default for DoctorReport {
    fn default() -> (r: DoctorReport)
        ensures
            r.nodes_restored == 0,
            r.edges_deleted == 0,
            r.vectors_added == 0,
            r.vectors_purged == 0,
    {
        DoctorReport { nodes_restored: 0, edges_deleted: 0, vectors_added: 0, vectors_purged: 0 }
    }
}

/// Counts what healing one table did: the rows added to it, the stale ones that
/// were purged, and the identifiers that were there more than once.
pub fn count_healing(report: DoctorReport, added: usize, stale: usize, repeated: usize) -> (r:
    DoctorReport)
    requires
        report.vectors_added + added <= usize::MAX,
        report.vectors_purged + stale + repeated <= usize::MAX,
    ensures
        r.nodes_restored == report.nodes_restored,
        r.edges_deleted == report.edges_deleted,
        r.vectors_added == report.vectors_added + added,
        r.vectors_purged == report.vectors_purged + stale + repeated,
{
    DoctorReport {
        nodes_restored: report.nodes_restored,
        edges_deleted: report.edges_deleted,
        vectors_added: report.vectors_added + added,
        vectors_purged: report.vectors_purged + stale + repeated,
    }
}

// ---------------------------------------------------------------------------
// The graph
// ---------------------------------------------------------------------------

/// The node that a row of a dump spells.
pub open spec fn dump_node(row: Json) -> NodeRow {
    NodeRow {
        id: member_text(row, "id"@)->0,
        name: member_text(row, "name"@),
        type_: member_text(row, "type"@),
        created_at: member_text(row, "created_at"@),
        updated_at: member_text(row, "updated_at"@),
        properties: member_text(row, "properties"@),
        source_ref_keys: member_text(row, "source_ref_keys"@),
        source_dataset_ids: member_text(row, "source_dataset_ids"@),
        source_run_ids: member_text(row, "source_run_ids"@),
        source_run_refs: member_text(row, "source_run_refs"@),
    }
}

/// Accepts the rows of a dump whose node is not in the graph.
pub open spec fn row_missing(nodes: Seq<NodeRow>) -> spec_fn(Doc) -> bool {
    |row: Doc| member_text(row@, "id"@) matches Some(id) && !has_node(nodes, id)
}

/// The nodes that a dump holds and the graph does not, in the order of the dump.
pub open spec fn restored_of(nodes: Seq<NodeRow>, dump: Seq<Doc>) -> Seq<NodeRow> {
    dump.filter(row_missing(nodes)).map_values(|row: Doc| dump_node(row@))
}

/// Accepts the edges both of whose endpoints are in the graph.
pub open spec fn edge_anchored(nodes: Seq<NodeRow>) -> spec_fn(EdgeRow) -> bool {
    |e: EdgeRow| has_node(nodes, e.from_id) && has_node(nodes, e.to_id)
}

/// The graph with the missing nodes of a dump, each edge once, and no edge that
/// leads nowhere.
pub open spec fn repaired(g: Graph, dump: Seq<Doc>) -> Graph {
    let nodes = put_nodes(g.nodes, restored_of(g.nodes, dump));
    Graph { nodes, edges: dedup_of(g.edges).filter(edge_anchored(nodes)), ..g }
}

/// The text under a key, owned.
fn text_at(row: &Doc, key: &str) -> (r: Option<String>)
    ensures
        crate::text::opt_view(r) == member_text(row@, key@),
{
    match row.get_str(key) {
        Some(s) => Some(owned(s)),
        None => None,
    }
}

/// The nodes that a dump holds and the graph does not.
fn missing_nodes(graph: &GraphStore, dump_nodes: &[Doc]) -> (r: Vec<GraphNode>)
    ensures
        node_views(r@) == restored_of(graph@.nodes, dump_nodes@),
{
    let ghost pred = row_missing(graph@.nodes);
    let ghost to_row = |row: Doc| dump_node(row@);
    let mut out: Vec<GraphNode> = Vec::new();
    let mut i: usize = 0;
    proof {
        filter_ends(dump_nodes@, pred);
    }
    assert(node_views(out@) =~= dump_nodes@.take(0).filter(pred).map_values(to_row));
    while i < dump_nodes.len()
        invariant
            i <= dump_nodes@.len(),
            pred == row_missing(graph@.nodes),
            to_row == (|row: Doc| dump_node(row@)),
            node_views(out@) == dump_nodes@.take(i as int).filter(pred).map_values(to_row),
        decreases dump_nodes@.len() - i,
    {
        let row = &dump_nodes[i];
        let ghost kept = dump_nodes@.take(i as int).filter(pred);
        let ghost had = node_views(out@);
        proof {
            filter_step(dump_nodes@, i as int, pred);
        }
        match row.get_str("id") {
            Some(id) => {
                proof {
                    node_index_is_first(graph@.nodes, id@);
                }
                if graph.node_by_id(id).is_none() {
                    let node = GraphNode {
                        id: owned(id),
                        name: text_at(row, "name"),
                        type_: text_at(row, "type"),
                        created_at: text_at(row, "created_at"),
                        updated_at: text_at(row, "updated_at"),
                        properties: text_at(row, "properties"),
                        source_ref_keys: text_at(row, "source_ref_keys"),
                        source_dataset_ids: text_at(row, "source_dataset_ids"),
                        source_run_ids: text_at(row, "source_run_ids"),
                        source_run_refs: text_at(row, "source_run_refs"),
                    };
                    proof {
                        assert(node@ == dump_node(row@));
                        assert(kept.push(*row).map_values(to_row) =~= kept.map_values(to_row).push(
                            node@,
                        ));
                    }
                    out.push(node);
                    assert(node_views(out@) =~= had.push(dump_node(row@)));
                }
            },
            None => {},
        }
        i += 1;
    }
    proof {
        filter_ends(dump_nodes@, pred);
    }
    out
}

/// The endpoints of edges.
fn endpoints(keys: &[(String, String, String)]) -> (r: Vec<(String, String)>)
    ensures
        pair_views(r@) == triple_views(keys@).map_values(
            |k: (Seq<char>, Seq<char>, Seq<char>)| (k.0, k.1),
        ),
{
    let mut out: Vec<(String, String)> = Vec::new();
    let mut i: usize = 0;
    while i < keys.len()
        invariant
            i <= keys@.len(),
            out@.len() == i,
            forall|j: int|
                0 <= j < i ==> (#[trigger] out@[j]).0@ == keys@[j].0@ && out@[j].1@ == keys@[j].1@,
        decreases keys@.len() - i,
    {
        out.push((owned(keys[i].0.as_str()), owned(keys[i].1.as_str())));
        i += 1;
    }
    assert(pair_views(out@) =~= triple_views(keys@).map_values(
        |k: (Seq<char>, Seq<char>, Seq<char>)| (k.0, k.1),
    ));
    out
}

/// Deleting between the endpoints of the edges that lead nowhere leaves the
/// others.
proof fn dangling_edges_go(edges: Seq<EdgeRow>, nodes: Seq<NodeRow>)
    ensures
        ({
            let lost = edges.filter(edge_dangling(nodes)).map_values(|e: EdgeRow| edge_key(e));
            let pairs = lost.map_values(|k: (Seq<char>, Seq<char>, Seq<char>)| (k.0, k.1));
            &&& edges.filter(edge_not_between(pairs)) == edges.filter(edge_anchored(nodes))
            &&& lost.len() == 0 ==> edges.filter(edge_anchored(nodes)) == edges
        }),
{
    let bad = edges.filter(edge_dangling(nodes));
    let lost = bad.map_values(|e: EdgeRow| edge_key(e));
    let pairs = lost.map_values(|k: (Seq<char>, Seq<char>, Seq<char>)| (k.0, k.1));
    let p = edge_not_between(pairs);
    let q = edge_anchored(nodes);
    filter_members(edges, edge_dangling(nodes));
    assert forall|i: int| 0 <= i < edges.len() implies p(#[trigger] edges[i]) == q(edges[i]) by {
        let e = edges[i];
        assert(edges.contains(e));
        if !q(e) {
            assert(bad.contains(e));
            let k = choose|k: int| 0 <= k < bad.len() && bad[k] == e;
            assert(pairs[k] == (e.from_id, e.to_id));
        }
        if !p(e) {
            let k = choose|k: int| 0 <= k < pairs.len() && pairs[k] == (e.from_id, e.to_id);
            assert(bad[k].from_id == e.from_id && bad[k].to_id == e.to_id);
            assert(edge_dangling(nodes)(bad[k]));
        }
    }
    filters_agree(edges, p, q);
    if lost.len() == 0 {
        assert forall|i: int| 0 <= i < edges.len() implies q(#[trigger] edges[i]) by {
            assert(edges.contains(edges[i]));
            if !q(edges[i]) {
                assert(bad.contains(edges[i]));
            }
        }
        all_go_through(edges, q);
    }
}

/// A filter that accepts every element changes nothing.
proof fn all_go_through(edges: Seq<EdgeRow>, q: spec_fn(EdgeRow) -> bool)
    requires
        forall|i: int| 0 <= i < edges.len() ==> q(#[trigger] edges[i]),
    ensures
        edges.filter(q) == edges,
    decreases edges.len(),
{
    reveal(Seq::filter);
    if edges.len() > 0 {
        let head = edges.drop_last();
        assert forall|i: int| 0 <= i < head.len() implies q(#[trigger] head[i]) by {
            assert(head[i] == edges[i]);
        }
        all_go_through(head, q);
        assert(q(edges[edges.len() - 1]));
        assert(head.push(edges.last()) =~= edges);
    } else {
        assert(edges.filter(q) =~= edges);
    }
}

/// Restores the nodes that a dump holds and the graph does not, then drops edges
/// that occur twice and edges whose endpoints are gone. Where some endpoint is
/// gone the report counts those edges alone.
pub fn repair_graph_from_dump(graph: &mut GraphStore, dump_nodes: &[Doc]) -> (r: DoctorReport)
    ensures
        final(graph)@ == repaired(old(graph)@, dump_nodes@),
        old(graph).valid() ==> final(graph).valid(),
        ({
            let all = old(graph)@.edges;
            let once = dedup_of(all);
            let left = final(graph)@.edges;
            &&& r.nodes_restored == restored_of(old(graph)@.nodes, dump_nodes@).len()
            &&& r.edges_deleted == (if left.len() < once.len() {
                once.len() - left.len()
            } else {
                all.len() - once.len()
            })
            &&& r.vectors_added == 0
            &&& r.vectors_purged == 0
        }),
{
    let mut report = DoctorReport {
        nodes_restored: 0,
        edges_deleted: 0,
        vectors_added: 0,
        vectors_purged: 0,
    };
    let ghost start = graph@;
    let restored = missing_nodes(graph, dump_nodes);
    if restored.len() > 0 {
        graph.insert_nodes(&restored);
        report.nodes_restored = restored.len();
    }
    assert(graph@.nodes == put_nodes(start.nodes, restored_of(start.nodes, dump_nodes@)));
    report.edges_deleted = graph.dedup_edges();
    let ghost once = graph@;
    proof {
        dangling_edges_go(once.edges, once.nodes);
    }
    let dangling = graph.edges_with_missing_endpoint();
    if dangling.len() > 0 {
        let keys = endpoints(&dangling);
        report.edges_deleted = graph.delete_edges_by_endpoints(&keys);
        proof {
            some_edge_went(once.edges, once.nodes);
        }
    }
    report
}

/// Where some edge leads nowhere, fewer are left.
proof fn some_edge_went(edges: Seq<EdgeRow>, nodes: Seq<NodeRow>)
    requires
        edges.filter(edge_dangling(nodes)).len() > 0,
    ensures
        edges.filter(edge_anchored(nodes)).len() < edges.len(),
    decreases edges.len(),
{
    reveal(Seq::filter);
    if edges.len() > 0 {
        let head = edges.drop_last();
        head.lemma_filter_len(edge_anchored(nodes));
        if head.filter(edge_dangling(nodes)).len() > 0 {
            some_edge_went(head, nodes);
        }
    }
}

/// After a repair no edge leads nowhere.
pub proof fn repaired_edges_are_anchored(g: Graph, dump: Seq<Doc>)
    ensures
        forall|i: int|
            0 <= i < repaired(g, dump).edges.len() ==> has_node(
                repaired(g, dump).nodes,
                (#[trigger] repaired(g, dump).edges[i]).from_id,
            ) && has_node(repaired(g, dump).nodes, repaired(g, dump).edges[i].to_id),
{
    let nodes = repaired(g, dump).nodes;
    filter_members(dedup_of(g.edges), edge_anchored(nodes));
}

// ---------------------------------------------------------------------------
// The vector tables
// ---------------------------------------------------------------------------

/// One position put under each of the tables.
pub open spec fn at_each(
    groups: Map<Seq<char>, Seq<usize>>,
    tables: Seq<Seq<char>>,
    at: usize,
) -> Map<Seq<char>, Seq<usize>>
    decreases tables.len(),
{
    if tables.len() == 0 {
        groups
    } else {
        with_item(at_each(groups, tables.drop_last(), at), tables.last(), at)
    }
}

/// The positions of nodes by the vector tables that hold them.
pub open spec fn live_in(nodes: Seq<NodeRow>) -> Map<Seq<char>, Seq<usize>>
    decreases nodes.len(),
{
    if nodes.len() == 0 {
        Map::empty()
    } else {
        at_each(live_in(nodes.drop_last()), node_tables(nodes.last()), (nodes.len() - 1) as usize)
    }
}

/// The positions of nodes by the vector tables that hold them, the tables
/// ascending.
pub fn live_tables(nodes: &[GraphNode]) -> (r: Vec<(String, Vec<usize>)>)
    ensures
        ascending(r@),
        entry_map(r@) == live_in(node_views(nodes@)),
{
    let ghost all = node_views(nodes@);
    let mut groups: Groups<usize> = Groups::new();
    let mut i: usize = 0;
    assert(groups@ == live_in(all.take(0)));
    while i < nodes.len()
        invariant
            i <= nodes@.len(),
            groups.valid(),
            all == node_views(nodes@),
            groups@ == live_in(all.take(i as int)),
        decreases nodes@.len() - i,
    {
        let ghost before = groups@;
        assert(all.take(i + 1).drop_last() =~= all.take(i as int));
        let tables = tables_for_node(&nodes[i]);
        let ghost names = views(tables@);
        let mut j: usize = 0;
        assert(names.take(0) =~= Seq::empty());
        while j < tables.len()
            invariant
                j <= tables@.len(),
                groups.valid(),
                names == views(tables@),
                groups@ == at_each(before, names.take(j as int), i),
            decreases tables@.len() - j,
        {
            assert(names.take(j + 1).drop_last() =~= names.take(j as int));
            groups.add_item(tables[j].as_str(), i);
            j += 1;
        }
        assert(names.take(names.len() as int) =~= names);
        i += 1;
    }
    assert(all.take(all.len() as int) =~= all);
    groups.into_entries()
}

/// The identifiers of the nodes at the given positions.
pub open spec fn ids_at(nodes: Seq<NodeRow>, at: Seq<usize>) -> Seq<Seq<char>> {
    at.map_values(|k: usize| nodes[k as int].id)
}

/// Accepts what is not in the list.
pub open spec fn not_among(list: Seq<Seq<char>>) -> spec_fn(Seq<char>) -> bool {
    |id: Seq<char>| !list.contains(id)
}

/// Accepts what is in the list.
pub open spec fn among(list: Seq<Seq<char>>) -> spec_fn(Seq<char>) -> bool {
    |id: Seq<char>| list.contains(id)
}

/// Accepts what occurs more than once in the list.
pub open spec fn repeated(list: Seq<Seq<char>>) -> spec_fn(Seq<char>) -> bool {
    |id: Seq<char>| count_of(list, id) > 1
}

/// Accepts what occurs at most once in the list.
pub open spec fn not_repeated(list: Seq<Seq<char>>) -> spec_fn(Seq<char>) -> bool {
    |id: Seq<char>| count_of(list, id) <= 1
}

/// The identifiers in a table that no live node has, each once.
pub open spec fn stale_of(present: Seq<Seq<char>>, live: Seq<Seq<char>>) -> Seq<Seq<char>> {
    unique_of(present).filter(not_among(live))
}

/// The rows of a table, by identifier, once what is missing was added and what
/// is stale was removed.
pub open spec fn completed_rows(present: Seq<Seq<char>>, live: Seq<Seq<char>>) -> Seq<Seq<char>> {
    (present + live.filter(not_among(present))).filter(not_among(stale_of(present, live)))
}

/// The rows of a table once those that occurred more than once were removed and
/// added again.
pub open spec fn single_rows(rows: Seq<Seq<char>>, live: Seq<Seq<char>>) -> Seq<Seq<char>> {
    rows.filter(not_repeated(rows)) + live.filter(repeated(rows))
}

/// The rows of a healed table.
pub open spec fn healed(present: Seq<Seq<char>>, live: Seq<Seq<char>>) -> Seq<Seq<char>> {
    single_rows(completed_rows(present, live), live)
}

/// What a healed table lacks, and what it has too much.
#[derive(Debug)]
pub struct Healing {
    /// The positions of the nodes that the table lacks.
    pub missing: Vec<usize>,
    /// The identifiers in the table that no live node has.
    pub stale: Vec<String>,
}

/// The positions whose node's identifier is accepted.
pub open spec fn positions_of(
    nodes: Seq<NodeRow>,
    at: Seq<usize>,
    accepted: spec_fn(Seq<char>) -> bool,
) -> Seq<usize> {
    at.filter(|k: usize| accepted(nodes[k as int].id))
}

/// The positions whose node's identifier is, or is not, in the list.
fn select(nodes: &[GraphNode], at: &[usize], list: &[String], wanted: bool) -> (r: Vec<usize>)
    requires
        forall|k: int| 0 <= k < at@.len() ==> #[trigger] at@[k] < nodes@.len(),
    ensures
        forall|k: int| 0 <= k < r@.len() ==> #[trigger] r@[k] < nodes@.len(),
        ids_at(node_views(nodes@), r@) == ids_at(node_views(nodes@), at@).filter(
            if wanted {
                among(views(list@))
            } else {
                not_among(views(list@))
            },
        ),
        r@ == positions_of(
            node_views(nodes@),
            at@,
            if wanted {
                among(views(list@))
            } else {
                not_among(views(list@))
            },
        ),
{
    let ghost rows = node_views(nodes@);
    let ghost ids = ids_at(rows, at@);
    let ghost pred = if wanted {
        among(views(list@))
    } else {
        not_among(views(list@))
    };
    let ghost here = |k: usize| pred(rows[k as int].id);
    let held = text_set(list);
    let mut out: Vec<usize> = Vec::new();
    let mut i: usize = 0;
    proof {
        filter_ends(ids, pred);
        filter_ends(at@, here);
    }
    assert(ids_at(rows, out@) =~= ids.take(0).filter(pred));
    while i < at.len()
        invariant
            here == (|k: usize| pred(rows[k as int].id)),
            out@ == at@.take(i as int).filter(here),
            i <= at@.len(),
            rows == node_views(nodes@),
            ids == ids_at(rows, at@),
            forall|k: int| 0 <= k < at@.len() ==> #[trigger] at@[k] < nodes@.len(),
            forall|k: int| 0 <= k < out@.len() ==> #[trigger] out@[k] < nodes@.len(),
            forall|id: Seq<char>| #[trigger]
                held@.contains_key(id) <==> views(list@).contains(id),
            pred == (if wanted {
                among(views(list@))
            } else {
                not_among(views(list@))
            }),
            ids_at(rows, out@) == ids.take(i as int).filter(pred),
        decreases at@.len() - i,
    {
        let ghost had = ids_at(rows, out@);
        proof {
            filter_step(ids, i as int, pred);
            filter_step(at@, i as int, here);
        }
        let p: usize = at[i];
        let found = held.contains_key(nodes[p].id.as_str());
        assert(found == held@.contains_key(nodes@[p as int].id@));
        if found == wanted {
            out.push(p);
            assert(ids_at(rows, out@) =~= had.push(ids[i as int]));
        }
        i += 1;
    }
    proof {
        filter_ends(ids, pred);
        filter_ends(at@, here);
    }
    out
}

/// The identifiers of the nodes at the given positions.
fn node_ids_at(nodes: &[GraphNode], at: &[usize]) -> (r: Vec<String>)
    requires
        forall|k: int| 0 <= k < at@.len() ==> #[trigger] at@[k] < nodes@.len(),
    ensures
        views(r@) == ids_at(node_views(nodes@), at@),
{
    let mut out: Vec<String> = Vec::new();
    let mut i: usize = 0;
    while i < at.len()
        invariant
            i <= at@.len(),
            forall|k: int| 0 <= k < at@.len() ==> #[trigger] at@[k] < nodes@.len(),
            out@.len() == i,
            forall|k: int| 0 <= k < i ==> (#[trigger] out@[k])@ == nodes@[at@[k] as int].id@,
        decreases at@.len() - i,
    {
        let p: usize = at[i];
        out.push(owned(nodes[p].id.as_str()));
        i += 1;
    }
    assert(views(out@) =~= ids_at(node_views(nodes@), at@));
    out
}

/// What has to be added to a table and what has to go, given the identifiers
/// that it holds.
pub fn heal_table(nodes: &[GraphNode], at: &[usize], present: &[String]) -> (r: Healing)
    requires
        forall|k: int| 0 <= k < at@.len() ==> #[trigger] at@[k] < nodes@.len(),
    ensures
        forall|k: int| 0 <= k < r.missing@.len() ==> #[trigger] r.missing@[k] < nodes@.len(),
        r.missing@ == positions_of(node_views(nodes@), at@, not_among(views(present@))),
        ids_at(node_views(nodes@), r.missing@) == ids_at(node_views(nodes@), at@).filter(
            not_among(views(present@)),
        ),
        views(r.stale@) == stale_of(views(present@), ids_at(node_views(nodes@), at@)),
{
    let missing = select(nodes, at, present, false);
    let ghost live = ids_at(node_views(nodes@), at@);
    let live_ids = node_ids_at(nodes, at);
    let held = text_set(&live_ids);
    let distinct = unique(present);
    let ghost ids = views(distinct@);
    let ghost pred = not_among(live);
    let mut stale: Vec<String> = Vec::new();
    let mut i: usize = 0;
    proof {
        filter_ends(ids, pred);
    }
    assert(views(stale@) =~= ids.take(0).filter(pred));
    while i < distinct.len()
        invariant
            i <= distinct@.len(),
            ids == views(distinct@),
            pred == not_among(live),
            forall|id: Seq<char>| #[trigger] held@.contains_key(id) <==> live.contains(id),
            views(stale@) == ids.take(i as int).filter(pred),
        decreases distinct@.len() - i,
    {
        let ghost had = views(stale@);
        proof {
            filter_step(ids, i as int, pred);
        }
        let found = held.contains_key(distinct[i].as_str());
        assert(found == held@.contains_key(distinct@[i as int]@));
        if !found {
            stale.push(owned(distinct[i].as_str()));
            assert(views(stale@) =~= had.push(ids[i as int]));
        }
        i += 1;
    }
    proof {
        filter_ends(ids, pred);
    }
    Healing { missing, stale }
}

/// The identifiers that occur more than once, each once.
pub fn repeated_ids(ids: &Vec<String>) -> (r: Vec<String>)
    ensures
        views(r@).no_duplicates(),
        forall|id: Seq<char>| #[trigger] views(r@).contains(id) <==> repeated(views(ids@))(id),
{
    let ghost all = views(ids@);
    let counts = tally(ids);
    let ghost rows = count_views(counts@);
    let mut out: Vec<String> = Vec::new();
    let mut i: usize = 0;
    while i < counts.len()
        invariant
            i <= counts@.len(),
            all == views(ids@),
            rows == count_views(counts@),
            histogram_of(all, rows),
            views(out@).no_duplicates(),
            forall|k: int|
                0 <= k < i && (#[trigger] rows[k]).1 > 1 ==> views(out@).contains(rows[k].0),
            forall|id: Seq<char>| #[trigger]
                views(out@).contains(id) ==> exists|k: int|
                    0 <= k < i && (#[trigger] rows[k]).0 == id && rows[k].1 > 1,
        decreases counts@.len() - i,
    {
        let ghost had = views(out@);
        if counts[i].1 > 1 {
            out.push(owned(counts[i].0.as_str()));
            proof {
                let now = views(out@);
                let name = rows[i as int].0;
                assert(now =~= had.push(name));
                assert(!had.contains(name)) by {
                    if had.contains(name) {
                        let k = choose|k: int|
                            0 <= k < i && (#[trigger] rows[k]).0 == name && rows[k].1 > 1;
                        assert(rows[k].0 != rows[i as int].0);
                    }
                }
                assert forall|id: Seq<char>| #[trigger] now.contains(id) <==> had.contains(id)
                    || id == name by {
                    if had.contains(id) {
                        let k = choose|k: int| 0 <= k < had.len() && had[k] == id;
                        assert(now[k] == id);
                    }
                    assert(now[had.len() as int] == name);
                }
                assert forall|id: Seq<char>| #[trigger] now.contains(id) implies exists|k: int|
                    0 <= k < i + 1 && (#[trigger] rows[k]).0 == id && rows[k].1 > 1 by {
                    if id == name {
                        assert(rows[i as int].0 == id);
                    } else {
                        assert(had.contains(id));
                    }
                }
            }
        }
        i += 1;
    }
    proof {
        assert forall|id: Seq<char>| #[trigger] views(out@).contains(id) <==> repeated(all)(id) by {
            if repeated(all)(id) {
                count_is_positive_iff_contained(all, id);
                assert(all.contains(id));
                assert(named_in(rows, id));
                let k = choose|k: int| 0 <= k < rows.len() && (#[trigger] rows[k]).0 == id;
                assert(rows[k].1 > 1);
            }
        }
    }
    out
}

/// The positions of the nodes among those whose rows occur more than once.
pub fn reinserted(nodes: &[GraphNode], at: &[usize], repeats: &[String]) -> (r: Vec<usize>)
    requires
        forall|k: int| 0 <= k < at@.len() ==> #[trigger] at@[k] < nodes@.len(),
    ensures
        forall|k: int| 0 <= k < r@.len() ==> #[trigger] r@[k] < nodes@.len(),
        r@ == positions_of(node_views(nodes@), at@, among(views(repeats@))),
        ids_at(node_views(nodes@), r@) == ids_at(node_views(nodes@), at@).filter(
            among(views(repeats@)),
        ),
{
    select(nodes, at, repeats, true)
}

proof fn count_of_filtered(list: Seq<Seq<char>>, p: spec_fn(Seq<char>) -> bool, x: Seq<char>)
    ensures
        count_of(list.filter(p), x) == (if p(x) {
            count_of(list, x)
        } else {
            0
        }),
    decreases list.len(),
{
    reveal(Seq::filter);
    if list.len() > 0 {
        let head = list.drop_last();
        count_of_filtered(head, p, x);
        let kept = head.filter(p);
        kept.lemma_filter_push(list.last(), equal_to(x));
    }
}

proof fn count_of_both(a: Seq<Seq<char>>, b: Seq<Seq<char>>, x: Seq<char>)
    ensures
        count_of(a + b, x) == count_of(a, x) + count_of(b, x),
    decreases b.len(),
{
    reveal(Seq::filter);
    if b.len() > 0 {
        count_of_both(a, b.drop_last(), x);
        assert((a + b).drop_last() =~= a + b.drop_last());
    } else {
        assert(a + b =~= a);
    }
}

proof fn count_of_distinct(list: Seq<Seq<char>>, x: Seq<char>)
    requires
        list.no_duplicates(),
    ensures
        count_of(list, x) <= 1,
    decreases list.len(),
{
    reveal(Seq::filter);
    if list.len() > 0 {
        let head = list.drop_last();
        count_of_distinct(head, x);
        if list.last() == x {
            count_is_positive_iff_contained(head, x);
            if head.contains(x) {
                let k = choose|k: int| 0 <= k < head.len() && head[k] == x;
                assert(list[k] == list[list.len() - 1]);
            }
        }
    }
}

/// A healed table has one row for each live node, and no other.
pub proof fn healed_is_exact(present: Seq<Seq<char>>, live: Seq<Seq<char>>)
    requires
        live.no_duplicates(),
    ensures
        forall|id: Seq<char>| #[trigger]
            count_of(healed(present, live), id) == (if live.contains(id) {
                1nat
            } else {
                0
            }),
{
    let added = present + live.filter(not_among(present));
    let stale = stale_of(present, live);
    let rows = completed_rows(present, live);
    unique_keeps_each_once(present);
    filter_members(unique_of(present), not_among(live));
    assert forall|id: Seq<char>| #[trigger] count_of(healed(present, live), id) == (
    if live.contains(id) {
        1nat
    } else {
        0
    }) by {
        count_is_positive_iff_contained(present, id);
        count_is_positive_iff_contained(live, id);
        count_of_distinct(live, id);
        count_of_filtered(live, not_among(present), id);
        count_of_both(present, live.filter(not_among(present)), id);
        count_of_filtered(added, not_among(stale), id);
        count_of_filtered(rows, not_repeated(rows), id);
        count_of_filtered(live, repeated(rows), id);
        count_of_both(rows.filter(not_repeated(rows)), live.filter(repeated(rows)), id);
        assert(stale.contains(id) <==> present.contains(id) && !live.contains(id));
    }
}

proof fn each_once(
    groups: Map<Seq<char>, Seq<usize>>,
    tables: Seq<Seq<char>>,
    at: usize,
    table: Seq<char>,
)
    requires
        tables.no_duplicates(),
    ensures
        items_under(at_each(groups, tables, at), table) == (if tables.contains(table) {
            items_under(groups, table).push(at)
        } else {
            items_under(groups, table)
        }),
    decreases tables.len(),
{
    if tables.len() > 0 {
        let head = tables.drop_last();
        assert(head.no_duplicates()) by {
            assert forall|i: int, j: int|
                0 <= i < head.len() && 0 <= j < head.len() && i != j implies head[i] != head[j] by {
                assert(head[i] == tables[i] && head[j] == tables[j]);
            }
        }
        each_once(groups, head, at, table);
        let last = tables.last();
        assert(tables[tables.len() - 1] == last);
        if head.contains(table) {
            let k = choose|k: int| 0 <= k < head.len() && head[k] == table;
            assert(tables[k] == table);
            assert(tables[k] != tables[tables.len() - 1]);
        } else if tables.contains(table) {
            let k = choose|k: int| 0 <= k < tables.len() && tables[k] == table;
            if k < head.len() {
                assert(head[k] == table);
            }
        }
    }
}

/// Where no node names an index field twice, the positions under a table ascend.
proof fn live_positions_ascend(nodes: Seq<NodeRow>, table: Seq<char>)
    requires
        nodes.len() <= usize::MAX,
        forall|i: int|
            0 <= i < nodes.len() ==> node_tables(#[trigger] nodes[i]).no_duplicates(),
    ensures
        forall|k: int|
            0 <= k < items_under(live_in(nodes), table).len() ==> (#[trigger] items_under(
                live_in(nodes),
                table,
            )[k]) < nodes.len(),
        forall|a: int, b: int|
            #![trigger items_under(live_in(nodes), table)[a], items_under(live_in(nodes), table)[b]]
            0 <= a < b < items_under(live_in(nodes), table).len() ==> items_under(
                live_in(nodes),
                table,
            )[a] < items_under(live_in(nodes), table)[b],
    decreases nodes.len(),
{
    if nodes.len() > 0 {
        let head = nodes.drop_last();
        assert forall|i: int| 0 <= i < head.len() implies node_tables(
            #[trigger] head[i],
        ).no_duplicates() by {
            assert(head[i] == nodes[i]);
        }
        live_positions_ascend(head, table);
        let last = (nodes.len() - 1) as usize;
        assert(node_tables(nodes[nodes.len() - 1]).no_duplicates());
        each_once(live_in(head), node_tables(nodes.last()), last, table);
        let old = items_under(live_in(head), table);
        let now = items_under(live_in(nodes), table);
        assert forall|a: int, b: int|
            #![trigger now[a], now[b]]
            0 <= a < b < now.len() implies now[a] < now[b] by {
            assert(now[a] == old[a]);
            if b < old.len() {
                assert(now[b] == old[b]);
            }
        }
        assert forall|k: int| 0 <= k < now.len() implies (#[trigger] now[k]) < nodes.len() by {
            if k < old.len() {
                assert(now[k] == old[k]);
            }
        }
    }
}

/// Healing a table of a graph in which no node names an index field twice
/// leaves one row for each live node of that table, and no other.
pub proof fn healing_is_exact(nodes: Seq<NodeRow>, table: Seq<char>, present: Seq<Seq<char>>)
    requires
        distinct_ids(nodes),
        nodes.len() <= usize::MAX,
        forall|i: int|
            0 <= i < nodes.len() ==> node_tables(#[trigger] nodes[i]).no_duplicates(),
    ensures
        ({
            let live = ids_at(nodes, items_under(live_in(nodes), table));
            forall|id: Seq<char>| #[trigger]
                count_of(healed(present, live), id) == (if live.contains(id) {
                    1nat
                } else {
                    0
                })
        }),
{
    let at = items_under(live_in(nodes), table);
    let live = ids_at(nodes, at);
    live_positions_ascend(nodes, table);
    assert(live.no_duplicates()) by {
        assert forall|i: int, j: int|
            0 <= i < live.len() && 0 <= j < live.len() && i != j implies live[i] != live[j] by {
            let a = if i < j { i } else { j };
            let b = if i < j { j } else { i };
            assert(at[a] < at[b]);
            assert(at[b] < nodes.len());
            assert(nodes[at[a] as int].id != nodes[at[b] as int].id);
        }
    }
    healed_is_exact(present, live);
}

/// A table that holds each live node once needs no healing: nothing is missing,
/// nothing is stale, and nothing is there more than once.
proof fn exact_table_is_healthy(rows: Seq<Seq<char>>, live: Seq<Seq<char>>)
    requires
        forall|id: Seq<char>| #[trigger]
            count_of(rows, id) == (if live.contains(id) {
                1nat
            } else {
                0
            }),
    ensures
        live.filter(not_among(rows)).len() == 0,
        stale_of(rows, live).len() == 0,
        forall|id: Seq<char>| #[trigger] count_of(rows, id) <= 1,
{
    let missing = live.filter(not_among(rows));
    filter_members(live, not_among(rows));
    if missing.len() > 0 {
        let id = missing[0];
        assert(live.contains(id) && not_among(rows)(id));
        assert(count_of(rows, id) == 1);
        count_is_positive_iff_contained(rows, id);
    }
    let stale = stale_of(rows, live);
    unique_keeps_each_once(rows);
    filter_members(unique_of(rows), not_among(live));
    if stale.len() > 0 {
        let id = stale[0];
        assert(unique_of(rows).contains(id) && not_among(live)(id));
        assert(count_of(rows, id) == 0);
        count_is_positive_iff_contained(rows, id);
    }
}

/// Healing a healed table does nothing: nothing is missing, nothing is stale, and
/// nothing is there more than once.
pub proof fn healed_stays_healed(present: Seq<Seq<char>>, live: Seq<Seq<char>>)
    requires
        live.no_duplicates(),
    ensures
        live.filter(not_among(healed(present, live))).len() == 0,
        stale_of(healed(present, live), live).len() == 0,
        forall|id: Seq<char>| #[trigger] count_of(healed(present, live), id) <= 1,
{
    healed_is_exact(present, live);
    exact_table_is_healthy(healed(present, live), live);
}

/// A second healing of a table of a graph in which no node names an index field
/// twice adds nothing and purges nothing. `rows` are the identifiers that the
/// healed table holds, in whatever order they are listed.
pub proof fn second_healing_does_nothing(
    nodes: Seq<NodeRow>,
    table: Seq<char>,
    present: Seq<Seq<char>>,
    rows: Seq<Seq<char>>,
)
    requires
        distinct_ids(nodes),
        nodes.len() <= usize::MAX,
        forall|i: int|
            0 <= i < nodes.len() ==> node_tables(#[trigger] nodes[i]).no_duplicates(),
        forall|id: Seq<char>| #[trigger]
            count_of(rows, id) == count_of(
                healed(present, ids_at(nodes, items_under(live_in(nodes), table))),
                id,
            ),
    ensures
        ({
            let at = items_under(live_in(nodes), table);
            &&& positions_of(nodes, at, not_among(rows)).len() == 0
            &&& stale_of(rows, ids_at(nodes, at)).len() == 0
            &&& forall|id: Seq<char>| !#[trigger] repeated(rows)(id)
        }),
{
    let at = items_under(live_in(nodes), table);
    let live = ids_at(nodes, at);
    healing_is_exact(nodes, table, present);
    assert forall|id: Seq<char>| #[trigger] count_of(rows, id) == (if live.contains(id) {
        1nat
    } else {
        0
    }) by {
        assert(count_of(rows, id) == count_of(healed(present, live), id));
    }
    exact_table_is_healthy(rows, live);
    let missing = positions_of(nodes, at, not_among(rows));
    let here = |k: usize| not_among(rows)(nodes[k as int].id);
    filter_members(at, here);
    if missing.len() > 0 {
        let k = missing[0];
        assert(at.contains(k) && here(k));
        let i = choose|i: int| 0 <= i < at.len() && at[i] == k;
        assert(live[i] == nodes[k as int].id);
        filter_members(live, not_among(rows));
        assert(live.contains(live[i]));
        assert(live.filter(not_among(rows)).contains(live[i]));
    }
    assert forall|id: Seq<char>| !#[trigger] repeated(rows)(id) by {
        assert(count_of(rows, id) <= 1);
    }
}

// ---------------------------------------------------------------------------
// The rows of a table
// ---------------------------------------------------------------------------

/// The property that a table holds the vectors of, for nodes of a type.
pub open spec fn table_field_of(table: Seq<char>, type_: Seq<char>) -> Seq<char> {
    if starts_of(table, type_ + "_"@) {
        table.skip((type_ + "_"@).len() as int)
    } else {
        "name"@
    }
}

/// The text that a node gives its index field.
pub open spec fn embeddable_of(n: NodeRow, field: Seq<char>) -> Seq<char> {
    let text = if field == "name"@ {
        n.name
    } else {
        member_text(properties_of(n.properties), field)
    };
    match text {
        Some(s) => s,
        None => Seq::empty(),
    }
}

/// The text that a node gives its index field.
pub fn embeddable_text(node: &GraphNode, field: &str) -> (r: String)
    ensures
        r@ == embeddable_of(node@, field@),
{
    if same(field, "name") {
        return or_empty(&node.name);
    }
    let properties = read_properties(&node.properties);
    match properties.get_str(field) {
        Some(s) => owned(s),
        None => String::new(),
    }
}

/// The text of a node that a table holds the vector of.
pub fn table_text(table: &str, node: &GraphNode) -> (r: String)
    ensures
        r@ == embeddable_of(node@, table_field_of(table@, type_or_empty(node@))),
{
    let type_ = or_empty(&node.type_);
    let prefix = concat2(type_.as_str(), "_");
    match strip_prefix(table, prefix.as_str()) {
        Some(field) => embeddable_text(node, field.as_str()),
        None => embeddable_text(node, "name"),
    }
}

/// The texts of the nodes at the given positions that a table holds the vectors
/// of.
pub fn table_texts(table: &str, nodes: &[GraphNode], at: &[usize]) -> (r: Vec<String>)
    requires
        forall|k: int| 0 <= k < at@.len() ==> #[trigger] at@[k] < nodes@.len(),
    ensures
        r@.len() == at@.len(),
        forall|k: int|
            0 <= k < r@.len() ==> (#[trigger] r@[k])@ == embeddable_of(
                nodes@[at@[k] as int]@,
                table_field_of(table@, type_or_empty(nodes@[at@[k] as int]@)),
            ),
{
    let mut out: Vec<String> = Vec::new();
    let mut i: usize = 0;
    while i < at.len()
        invariant
            i <= at@.len(),
            forall|k: int| 0 <= k < at@.len() ==> #[trigger] at@[k] < nodes@.len(),
            out@.len() == i,
            forall|k: int|
                0 <= k < i ==> (#[trigger] out@[k])@ == embeddable_of(
                    nodes@[at@[k] as int]@,
                    table_field_of(table@, type_or_empty(nodes@[at@[k] as int]@)),
                ),
        decreases at@.len() - i,
    {
        let p: usize = at[i];
        out.push(table_text(table, &nodes[p]));
        i += 1;
    }
    out
}

/// The row of a node with its vector.
pub open spec fn is_node_row<T>(r: VectorRow<T>, n: NodeRow, vector: Seq<T>) -> bool {
    &&& r.id@ == n.id
    &&& r.vector@ == vector
    &&& r.payload@ == payload_of(properties_of(n.properties), n.id, type_or_empty(n))
}

/// The rows of the nodes at the given positions, each with its vector; as many
/// as there are both.
pub fn node_rows<T>(nodes: &[GraphNode], at: &[usize], vectors: Vec<Vec<T>>) -> (r: Vec<
    VectorRow<T>,
>)
    requires
        forall|k: int| 0 <= k < at@.len() ==> #[trigger] at@[k] < nodes@.len(),
    ensures
        r@.len() == (if at@.len() <= vectors@.len() {
            at@.len()
        } else {
            vectors@.len()
        }),
        forall|k: int|
            0 <= k < r@.len() ==> is_node_row(
                #[trigger] r@[k],
                nodes@[at@[k] as int]@,
                vectors@[k]@,
            ),
{
    let ghost given = vectors@;
    let mut out: Vec<VectorRow<T>> = Vec::new();
    for vector in it: vectors
        invariant
            given == it.seq(),
            forall|k: int| 0 <= k < at@.len() ==> #[trigger] at@[k] < nodes@.len(),
            out@.len() == (if at@.len() <= it.index() {
                at@.len() as int
            } else {
                it.index() as int
            }),
            forall|k: int|
                0 <= k < out@.len() ==> is_node_row(
                    #[trigger] out@[k],
                    nodes@[at@[k] as int]@,
                    given[k]@,
                ),
    {
        let i: usize = out.len();
        if i < at.len() {
            let p: usize = at[i];
            let node = &nodes[p];
            let type_ = or_empty(&node.type_);
            let properties = read_properties(&node.properties);
            let payload = row_payload(properties, node.id.as_str(), type_.as_str());
            out.push(VectorRow { id: owned(node.id.as_str()), vector, payload });
        }
    }
    out
}

} // verus!
