//! What remembering and forgetting do to each other.

use vstd::prelude::*;

use crate::forget::{graph_without, item_key, node_ids, node_released, node_stays, swept};
use crate::ingest::assemble::{
    built_of, dedup_raw, edge_row_of, has_point, points_of, Built, RawEdgeRow, SourceRow,
};
use crate::ingest::chunk::ChunkRow;
use crate::ingest::datapoints::{node_row_of, source_ref_of, DatapointRow};
use crate::ingest::extract::GraphFound;
use crate::ingest::shape::{dedup_raw_keeps_each_once, has_id, joins, source_is_closed};

use crate::lists::filter_members;
use crate::remember::{graph_with, new_edges, new_nodes};
use crate::storage::graph::{
    dedup_keeps_each_once, dedup_of, distinct_ids, edge_from, edge_index, edge_index_is_first,
    edge_merged, edge_released, edge_stays, edge_with_refs, filter_keeps_distinct, has_edge,
    has_node, node_from, node_index, node_index_is_first, node_merged, node_other_than, put_edge,
    put_edges, put_nodes, put_nodes_keeps_distinct, same_edge, sole_owner, with_refs, EdgeRow,
    Graph, NodeRow,
};
use crate::storage::refs::{
    entries, entries_opt, entry_like, list_holds_its_entries, list_text, merge_adds_once, merged,
    other_than, sole_owner_iff_counts_agree, strip_leaves_the_others, strip_undoes_merge, stripped,
};
use crate::storage::relational::{data_other_than, DataEntry};

use crate::uid::{simple_text, spelling_char, uuid_text, uuid_text_is_spelled, Uuid};

verus! {

/// The provenance entry of a data item can stand in a list.
pub proof fn entry_is_plain(dataset: u128, data: u128)
    ensures
        entry_like(source_ref_of(uuid_text(dataset), uuid_text(data))),
{
    let a = uuid_text(dataset);
    let b = uuid_text(data);
    let key = source_ref_of(a, b);
    uuid_text_is_spelled(dataset);
    uuid_text_is_spelled(data);
    reveal_strlit("source_ref:v1:");
    reveal_strlit(":");
    assert forall|i: int| 0 <= i < key.len() implies key[i] != '|' by {
        if 14 <= i < 50 {
            assert(key[i] == a[i - 14]);
            assert(spelling_char(a[i - 14]));
        } else if i >= 51 {
            assert(key[i] == b[i - 51]);
            assert(spelling_char(b[i - 51]));
        }
    }
}

/// A list that has the entry, and another.
pub open spec fn shared_list(raw: Option<Seq<char>>, key: Seq<char>) -> bool {
    entries_opt(raw).contains(key) && exists|i: int|
        0 <= i < entries_opt(raw).len() && #[trigger] entries_opt(raw)[i] != key
}

/// A list that has the entry, and no other.
pub open spec fn lone_list(raw: Option<Seq<char>>, key: Seq<char>) -> bool {
    entries_opt(raw).contains(key) && forall|i: int|
        0 <= i < entries_opt(raw).len() ==> #[trigger] entries_opt(raw)[i] == key
}

/// A node that another data item owns too outlives the forgotten one: it stays
/// as it is, but for the entry of the forgotten item.
pub proof fn shared_node_survives(g: Graph, key: Seq<char>, i: int)
    requires
        entry_like(key),
        0 <= i < g.nodes.len(),
        shared_list(g.nodes[i].source_ref_keys, key),
    ensures
        ({
            let left = with_refs(g.nodes[i], stripped(g.nodes[i].source_ref_keys->0, key));
            &&& graph_without(g, key).nodes.contains(left)
            &&& entries_opt(left.source_ref_keys) == entries_opt(
                g.nodes[i].source_ref_keys,
            ).filter(other_than(key))
            &&& entries_opt(left.source_ref_keys).len() > 0
        }),
{
    let n = g.nodes[i];
    let raw = n.source_ref_keys->0;
    sole_owner_iff_counts_agree(n.source_ref_keys, key);
    strip_leaves_the_others(raw, key);
    filter_members(g.nodes, node_stays(key));
    let kept = g.nodes.filter(node_stays(key));
    assert(g.nodes.contains(n));
    assert(kept.contains(n));
    let k = choose|k: int| 0 <= k < kept.len() && kept[k] == n;
    let after = graph_without(g, key).nodes;
    assert(after[k] == node_released(key)(n));
    let j = choose|j: int| 0 <= j < entries(raw).len() && #[trigger] entries(raw)[j] != key;
    filter_members(entries(raw), other_than(key));
    assert(entries(raw).contains(entries(raw)[j]));
    assert(entries(raw).filter(other_than(key)).contains(entries(raw)[j]));
}

/// A node that comes from the forgotten data item alone goes with it.
pub proof fn lone_node_goes(g: Graph, key: Seq<char>, i: int)
    requires
        distinct_ids(g.nodes),
        entry_like(key),
        0 <= i < g.nodes.len(),
        lone_list(g.nodes[i].source_ref_keys, key),
    ensures
        !has_node(graph_without(g, key).nodes, g.nodes[i].id),
{
    let n = g.nodes[i];
    sole_owner_iff_counts_agree(n.source_ref_keys, key);
    let kept = g.nodes.filter(node_stays(key));
    filter_members(g.nodes, node_stays(key));
    let after = graph_without(g, key).nodes;
    if has_node(after, n.id) {
        let k = choose|k: int| 0 <= k < after.len() && (#[trigger] after[k]).id == n.id;
        assert(after[k] == node_released(key)(kept[k]));
        assert(kept[k].id == n.id);
        assert(g.nodes.contains(kept[k]));
        let m = choose|m: int| 0 <= m < g.nodes.len() && g.nodes[m] == kept[k];
        assert(m == i);
        assert(node_stays(key)(kept[k]));
    }
}

/// A node that does not have the entry is left as it is.
pub proof fn other_node_stays(g: Graph, key: Seq<char>, i: int)
    requires
        0 <= i < g.nodes.len(),
        !node_from(key)(g.nodes[i]),
    ensures
        graph_without(g, key).nodes.contains(g.nodes[i]),
{
    let kept = g.nodes.filter(node_stays(key));
    filter_members(g.nodes, node_stays(key));
    assert(g.nodes.contains(g.nodes[i]));
    assert(kept.contains(g.nodes[i]));
    let k = choose|k: int| 0 <= k < kept.len() && kept[k] == g.nodes[i];
    assert(graph_without(g, key).nodes[k] == g.nodes[i]);
}

/// No node is owned by a forgotten data item.
pub proof fn no_node_names_it(g: Graph, key: Seq<char>)
    requires
        entry_like(key),
    ensures
        forall|i: int|
            0 <= i < graph_without(g, key).nodes.len() ==> !entries_opt(
                (#[trigger] graph_without(g, key).nodes[i]).source_ref_keys,
            ).contains(key),
{
    let after = graph_without(g, key).nodes;
    let kept = g.nodes.filter(node_stays(key));
    assert forall|i: int| 0 <= i < after.len() implies !entries_opt(
        (#[trigger] after[i]).source_ref_keys,
    ).contains(key) by {
        let n = kept[i];
        assert(after[i] == node_released(key)(n));
        filter_members(g.nodes, node_stays(key));
        assert(node_stays(key)(n));
        if n.source_ref_keys is Some {
            strip_leaves_the_others(n.source_ref_keys->0, key);
        }
    }
}

/// No edge is owned by a forgotten data item.
pub proof fn no_edge_names_it(g: Graph, key: Seq<char>)
    ensures
        forall|i: int|
            0 <= i < graph_without(g, key).edges.len() ==> !entries_opt(
                (#[trigger] graph_without(g, key).edges[i]).source_ref_keys,
            ).contains(key),
{
    let after = graph_without(g, key).edges;
    let kept = g.edges.filter(edge_stays(key));
    assert forall|i: int| 0 <= i < after.len() implies !entries_opt(
        (#[trigger] after[i]).source_ref_keys,
    ).contains(key) by {
        let e = kept[i];
        assert(after[i] == edge_released(key)(e));
        if e.source_ref_keys is Some {
            strip_leaves_the_others(e.source_ref_keys->0, key);
        }
    }
}

/// An edge that comes from the forgotten data item alone goes with it: what is
/// left was there before, and either did not have the entry or has others.
pub proof fn lone_edge_goes(g: Graph, key: Seq<char>, i: int)
    requires
        entry_like(key),
        0 <= i < graph_without(g, key).edges.len(),
    ensures
        exists|k: int|
            0 <= k < g.edges.len() && graph_without(g, key).edges[i] == edge_released(key)(
                #[trigger] g.edges[k],
            ) && !lone_list(g.edges[k].source_ref_keys, key),
{
    let kept = g.edges.filter(edge_stays(key));
    filter_members(g.edges, edge_stays(key));
    let e = kept[i];
    assert(graph_without(g, key).edges[i] == edge_released(key)(e));
    assert(g.edges.contains(e));
    let k = choose|k: int| 0 <= k < g.edges.len() && g.edges[k] == e;
    sole_owner_iff_counts_agree(e.source_ref_keys, key);
    assert(edge_stays(key)(e));
    assert(graph_without(g, key).edges[i] == edge_released(key)(g.edges[k]));
}

/// An edge that another data item owns too outlives the forgotten one: it stays
/// as it is, but for the entry of the forgotten item.
pub proof fn shared_edge_survives(g: Graph, key: Seq<char>, i: int)
    requires
        entry_like(key),
        0 <= i < g.edges.len(),
        shared_list(g.edges[i].source_ref_keys, key),
    ensures
        ({
            let left = edge_with_refs(g.edges[i], stripped(g.edges[i].source_ref_keys->0, key));
            &&& graph_without(g, key).edges.contains(left)
            &&& entries_opt(left.source_ref_keys) == entries_opt(
                g.edges[i].source_ref_keys,
            ).filter(other_than(key))
            &&& entries_opt(left.source_ref_keys).len() > 0
        }),
{
    let e = g.edges[i];
    let raw = e.source_ref_keys->0;
    sole_owner_iff_counts_agree(e.source_ref_keys, key);
    strip_leaves_the_others(raw, key);
    others_are_left(raw, key);
    filter_members(g.edges, edge_stays(key));
    let kept = g.edges.filter(edge_stays(key));
    assert(g.edges.contains(e));
    assert(kept.contains(e));
    let k = choose|k: int| 0 <= k < kept.len() && kept[k] == e;
    assert(graph_without(g, key).edges[k] == edge_released(key)(e));
}

/// A list with another entry keeps that.
proof fn others_are_left(raw: Seq<char>, key: Seq<char>)
    requires
        exists|j: int| 0 <= j < entries(raw).len() && #[trigger] entries(raw)[j] != key,
    ensures
        entries(raw).filter(other_than(key)).len() > 0,
{
    let j = choose|j: int| 0 <= j < entries(raw).len() && #[trigger] entries(raw)[j] != key;
    filter_members(entries(raw), other_than(key));
    assert(entries(raw).contains(entries(raw)[j]));
    assert(entries(raw).filter(other_than(key)).contains(entries(raw)[j]));
}

/// Every node and every edge is owned by some data item.
pub open spec fn all_owned(g: Graph) -> bool {
    &&& forall|i: int|
        0 <= i < g.nodes.len() ==> entries_opt((#[trigger] g.nodes[i]).source_ref_keys).len() > 0
    &&& forall|i: int|
        0 <= i < g.edges.len() ==> entries_opt((#[trigger] g.edges[i]).source_ref_keys).len() > 0
}

/// What is left of a list with entries that is not that of the data item alone.
proof fn owners_are_left(raw: Option<Seq<char>>, key: Seq<char>)
    requires
        entry_like(key),
        entries_opt(raw).contains(key),
        !sole_owner(raw, key),
    ensures
        entries(stripped(raw->0, key)).len() > 0,
{
    sole_owner_iff_counts_agree(raw, key);
    strip_leaves_the_others(raw->0, key);
    let j = choose|j: int| 0 <= j < entries_opt(raw).len() && #[trigger] entries_opt(raw)[j] != key;
    assert(entries(raw->0)[j] != key);
    others_are_left(raw->0, key);
}

/// Forgetting leaves nothing without an owner: where all owners of a node or of
/// an edge are forgotten, it is deleted.
pub proof fn what_is_left_is_owned(g: Graph, key: Seq<char>)
    requires
        entry_like(key),
        all_owned(g),
    ensures
        all_owned(graph_without(g, key)),
{
    let after = graph_without(g, key);
    let nodes = g.nodes.filter(node_stays(key));
    let edges = g.edges.filter(edge_stays(key));
    filter_members(g.nodes, node_stays(key));
    filter_members(g.edges, edge_stays(key));
    assert forall|i: int| 0 <= i < after.nodes.len() implies entries_opt(
        (#[trigger] after.nodes[i]).source_ref_keys,
    ).len() > 0 by {
        let n = nodes[i];
        assert(after.nodes[i] == node_released(key)(n));
        assert(g.nodes.contains(n) && node_stays(key)(n));
        let m = choose|m: int| 0 <= m < g.nodes.len() && g.nodes[m] == n;
        assert(entries_opt(g.nodes[m].source_ref_keys).len() > 0);
        if node_from(key)(n) {
            owners_are_left(n.source_ref_keys, key);
        }
    }
    assert forall|i: int| 0 <= i < after.edges.len() implies entries_opt(
        (#[trigger] after.edges[i]).source_ref_keys,
    ).len() > 0 by {
        let e = edges[i];
        assert(after.edges[i] == edge_released(key)(e));
        assert(g.edges.contains(e) && edge_stays(key)(e));
        let m = choose|m: int| 0 <= m < g.edges.len() && g.edges[m] == e;
        assert(entries_opt(g.edges[m].source_ref_keys).len() > 0);
        if edge_from(key)(e) {
            owners_are_left(e.source_ref_keys, key);
        }
    }
}

// ---------------------------------------------------------------------------
// Remembering and then forgetting
// ---------------------------------------------------------------------------

/// No row of the graph comes from the data item with the entry `key`.
pub open spec fn knows_nothing_of(g: Graph, key: Seq<char>) -> bool {
    &&& forall|i: int|
        0 <= i < g.nodes.len() ==> !entries_opt(
            (#[trigger] g.nodes[i]).source_ref_keys,
        ).contains(key)
    &&& forall|i: int|
        0 <= i < g.edges.len() ==> !entries_opt(
            (#[trigger] g.edges[i]).source_ref_keys,
        ).contains(key)
}

/// The nodes that the graph has of the data points are owned by some data item.
pub open spec fn nodes_owned(g: Graph, points: Seq<DatapointRow>) -> bool {
    forall|k: int|
        0 <= k < points.len() ==> (node_index(
            g.nodes,
            uuid_text((#[trigger] points[k]).id),
        ) matches Some(i) ==> entries_opt(g.nodes[i].source_ref_keys).len() > 0)
}

/// A provenance list with entries, spelled as this library spells it.
pub open spec fn tidy(raw: Option<Seq<char>>) -> bool {
    raw matches Some(r) && entries(r).len() > 0 && r == list_text(entries(r))
}

/// The edges that the graph has of those have tidy lists; of edges that are there
/// more than once, the first.
pub open spec fn edges_tidy(g: Graph, edges: Seq<RawEdgeRow>) -> bool {
    forall|k: int|
        0 <= k < edges.len() ==> (edge_index(
            g.edges,
            (#[trigger] edges[k]).from_id,
            edges[k].to_id,
            Some(edges[k].relationship_name),
        ) matches Some(i) ==> tidy(g.edges[i].source_ref_keys))
}

proof fn all_are_kept<A>(s: Seq<A>, p: spec_fn(A) -> bool)
    requires
        forall|i: int| 0 <= i < s.len() ==> p(#[trigger] s[i]),
    ensures
        s.filter(p) == s,
    decreases s.len(),
{
    reveal(Seq::filter);
    if s.len() > 0 {
        assert forall|i: int| 0 <= i < s.drop_last().len() implies p(
            #[trigger] s.drop_last()[i],
        ) by {
            assert(s.drop_last()[i] == s[i]);
        }
        all_are_kept(s.drop_last(), p);
        assert(p(s[s.len() - 1]));
        assert(s.drop_last().push(s.last()) =~= s);
    }
}

/// What writing rows leaves: the rows written, and the others.
proof fn written_rows(nodes: Seq<NodeRow>, rows: Seq<NodeRow>)
    ensures
        forall|n: NodeRow| #[trigger]
            put_nodes(nodes, rows).contains(n) ==> rows.contains(n) || (nodes.contains(n)
                && !has_node(rows, n.id)),
        forall|n: NodeRow|
            nodes.contains(n) && !has_node(rows, n.id) ==> #[trigger] put_nodes(
                nodes,
                rows,
            ).contains(n),
        forall|id: Seq<char>| #[trigger]
            has_node(put_nodes(nodes, rows), id) <==> has_node(nodes, id) || has_node(rows, id),
    decreases rows.len(),
{
    if rows.len() > 0 {
        let head = rows.drop_last();
        let last = rows.last();
        written_rows(nodes, head);
        let before = put_nodes(nodes, head);
        let pred = node_other_than(last.id);
        let kept = before.filter(pred);
        let after = put_nodes(nodes, rows);
        filter_members(before, pred);
        assert(after == kept.push(last));
        assert(rows[rows.len() - 1] == last);
        assert(after[kept.len() as int] == last);
        assert forall|id: Seq<char>| #[trigger] has_node(rows, id) <==> has_node(head, id)
            || id == last.id by {
            if has_node(rows, id) {
                let i = choose|i: int| 0 <= i < rows.len() && (#[trigger] rows[i]).id == id;
                assert(i < head.len() ==> head[i].id == id);
            }
            if has_node(head, id) {
                let i = choose|i: int| 0 <= i < head.len() && (#[trigger] head[i]).id == id;
                assert(rows[i].id == id);
            }
        }
        assert forall|n: NodeRow| #[trigger] after.contains(n) <==> n == last || (before.contains(n)
            && n.id != last.id) by {
            if after.contains(n) {
                let i = choose|i: int| 0 <= i < after.len() && after[i] == n;
                if i < kept.len() {
                    assert(kept[i] == n);
                    assert(kept.contains(n));
                }
            }
            if before.contains(n) && n.id != last.id {
                assert(kept.contains(n));
                let i = choose|i: int| 0 <= i < kept.len() && kept[i] == n;
                assert(after[i] == n);
            }
        }
        assert forall|n: NodeRow| #[trigger] after.contains(n) implies rows.contains(n) || (
        nodes.contains(n) && !has_node(rows, n.id)) by {
            if n != last {
                assert(before.contains(n));
                if head.contains(n) {
                    let i = choose|i: int| 0 <= i < head.len() && head[i] == n;
                    assert(rows[i] == n);
                }
            }
        }
        assert forall|n: NodeRow| nodes.contains(n) && !has_node(
            rows,
            n.id,
        ) implies #[trigger] after.contains(n) by {
            assert(before.contains(n));
        }
        assert forall|id: Seq<char>| #[trigger] has_node(after, id) <==> has_node(nodes, id)
            || has_node(rows, id) by {
            if has_node(after, id) {
                let i = choose|i: int| 0 <= i < after.len() && (#[trigger] after[i]).id == id;
                assert(after.contains(after[i]));
                if after[i] != last {
                    assert(before.contains(after[i]));
                    let k = choose|k: int| 0 <= k < before.len() && before[k] == after[i];
                    assert(before[k].id == id);
                    assert(has_node(before, id));
                }
            }
            if has_node(nodes, id) || has_node(rows, id) {
                if id == last.id {
                    assert(after[kept.len() as int].id == id);
                } else {
                    assert(has_node(before, id));
                    let k = choose|k: int| 0 <= k < before.len() && (#[trigger] before[k]).id == id;
                    assert(before.contains(before[k]));
                    assert(after.contains(before[k]));
                    let i = choose|i: int| 0 <= i < after.len() && after[i] == before[k];
                    assert(after[i].id == id);
                }
            }
        }
    } else {
        assert(put_nodes(nodes, rows) == nodes);
    }
}

/// The list with the entry alone.
proof fn sole_entry(key: Seq<char>)
    requires
        entry_like(key),
    ensures
        lone_list(Some(list_text(seq![key])), key),
{
    list_holds_its_entries(seq![key]);
    assert(seq![key][0] == key);
}

/// A list with other entries is shared once the entry is added, and without it
/// has the entries that it had.
proof fn shared_after_merge(raw: Option<Seq<char>>, key: Seq<char>)
    requires
        !entries_opt(raw).contains(key),
        entries_opt(raw).len() > 0,
        entry_like(key),
    ensures
        shared_list(Some(merged(raw, key)), key),
        entries(merged(raw, key)).filter(other_than(key)) == entries_opt(raw),
{
    merge_adds_once(raw, key);
    strip_undoes_merge(raw, key);
    strip_leaves_the_others(merged(raw, key), key);
    let all = entries(merged(raw, key));
    assert(all[0] == entries_opt(raw)[0]);
    assert(entries_opt(raw).contains(entries_opt(raw)[0]));
    assert(entries_opt(Some(merged(raw, key))) == all);
    assert(entries_opt(Some(merged(raw, key)))[0] != key);
}

/// The provenance list of a row that a source gives a graph.
proof fn new_node_lists(
    g: Graph,
    points: Seq<DatapointRow>,
    dataset: u128,
    data: u128,
    run: u128,
    k: int,
)
    requires
        knows_nothing_of(g, source_ref_of(uuid_text(dataset), uuid_text(data))),
        nodes_owned(g, points),
        0 <= k < points.len(),
    ensures
        ({
            let key = source_ref_of(uuid_text(dataset), uuid_text(data));
            let n = new_nodes(g, points, dataset, data, run)[k];
            match node_index(g.nodes, n.id) {
                Some(i) => 0 <= i < g.nodes.len() && g.nodes[i].id == n.id && shared_list(
                    n.source_ref_keys,
                    key,
                ) && entries_opt(n.source_ref_keys).filter(other_than(key)) == entries_opt(
                    g.nodes[i].source_ref_keys,
                ),
                None => lone_list(n.source_ref_keys, key),
            }
        }),
{
    let key = source_ref_of(uuid_text(dataset), uuid_text(data));
    entry_is_plain(dataset, data);
    let row = node_row_of(points[k], uuid_text(dataset), uuid_text(data), uuid_text(run));
    let n = new_nodes(g, points, dataset, data, run)[k];
    assert(n == node_merged(g, row, key));
    node_index_is_first(g.nodes, row.id);
    match node_index(g.nodes, row.id) {
        Some(i) => {
            assert(row.id == uuid_text(points[k].id));
            shared_after_merge(g.nodes[i].source_ref_keys, key);
        },
        None => {
            sole_entry(key);
        },
    }
}

/// Forgetting what was just remembered leaves the nodes that there were, owned
/// by those that owned them.
proof fn nodes_come_back(
    g: Graph,
    points: Seq<DatapointRow>,
    edges: Seq<RawEdgeRow>,
    dataset: u128,
    data: u128,
    run: u128,
)
    requires
        distinct_ids(g.nodes),
        knows_nothing_of(g, source_ref_of(uuid_text(dataset), uuid_text(data))),
        nodes_owned(g, points),
    ensures
        ({
            let key = source_ref_of(uuid_text(dataset), uuid_text(data));
            let after = graph_without(
                graph_with(g, points, edges, dataset, data, run),
                key,
            ).nodes;
            &&& forall|id: Seq<char>| #[trigger] has_node(after, id) <==> has_node(g.nodes, id)
            &&& forall|i: int|
                0 <= i < g.nodes.len() ==> owned_alike(after, #[trigger] g.nodes[i])
        }),
{
    let key = source_ref_of(uuid_text(dataset), uuid_text(data));
    entry_is_plain(dataset, data);
    let rows = new_nodes(g, points, dataset, data, run);
    let with = graph_with(g, points, edges, dataset, data, run);
    let after = graph_without(with, key).nodes;
    let kept = with.nodes.filter(node_stays(key));
    written_rows(g.nodes, rows);
    filter_members(with.nodes, node_stays(key));
    assert forall|id: Seq<char>| has_node(after, id) implies has_node(g.nodes, id) by {
        let k = choose|k: int| 0 <= k < after.len() && (#[trigger] after[k]).id == id;
        let n = kept[k];
        assert(after[k] == node_released(key)(n));
        assert(n.id == id);
        assert(with.nodes.contains(n));
        if rows.contains(n) {
            let j = choose|j: int| 0 <= j < rows.len() && rows[j] == n;
            new_node_lists(g, points, dataset, data, run, j);
            node_index_is_first(g.nodes, id);
            if node_index(g.nodes, id) is None {
                sole_owner_iff_counts_agree(n.source_ref_keys, key);
                assert(node_stays(key)(n));
            }
        } else {
            let j = choose|j: int| 0 <= j < g.nodes.len() && g.nodes[j] == n;
            assert(g.nodes[j].id == id);
        }
    }
    assert forall|i: int| 0 <= i < g.nodes.len() implies owned_alike(
        after,
        #[trigger] g.nodes[i],
    ) by {
        let old = g.nodes[i];
        if has_node(rows, old.id) {
            assert(has_node(with.nodes, old.id));
            let w = choose|w: int| 0 <= w < with.nodes.len() && (#[trigger] with.nodes[w]).id
                == old.id;
            let n = with.nodes[w];
            assert(with.nodes.contains(n));
            assert(rows.contains(n));
            let j = choose|j: int| 0 <= j < rows.len() && rows[j] == n;
            new_node_lists(g, points, dataset, data, run, j);
            node_index_is_first(g.nodes, n.id);
            assert(has_node(g.nodes, n.id));
            assert(node_index(g.nodes, n.id) == Some(i));
            shared_node_survives(with, key, w);
            let left = with_refs(n, stripped(n.source_ref_keys->0, key));
            let k = choose|k: int| 0 <= k < after.len() && after[k] == left;
            assert(after[k].id == old.id);
        } else {
            assert(g.nodes.contains(old));
            assert(with.nodes.contains(old));
            let w = choose|w: int| 0 <= w < with.nodes.len() && with.nodes[w] == old;
            other_node_stays(with, key, w);
            let k = choose|k: int| 0 <= k < after.len() && after[k] == old;
            assert(after[k].id == old.id);
        }
    }
    assert forall|id: Seq<char>| has_node(g.nodes, id) implies #[trigger] has_node(after, id) by {
        let i = choose|i: int| 0 <= i < g.nodes.len() && (#[trigger] g.nodes[i]).id == id;
        assert(owned_alike(after, g.nodes[i]));
        let k = choose|k: int| 0 <= k < after.len() && (#[trigger] after[k]).id == id;
        assert(after[k].id == id);
    }
}

/// Among the nodes is one with the identifier and the owners of `n`.
pub open spec fn owned_alike(nodes: Seq<NodeRow>, n: NodeRow) -> bool {
    exists|k: int|
        0 <= k < nodes.len() && (#[trigger] nodes[k]).id == n.id && entries_opt(
            nodes[k].source_ref_keys,
        ) == entries_opt(n.source_ref_keys)
}

/// What a row with the entry gives back when it is forgotten: for the first rows
/// of the edges, `g.edges` had them; the others go.
spec fn gives_back(edges: Seq<EdgeRow>, g: Graph, key: Seq<char>) -> bool {
    &&& edges.len() >= g.edges.len()
    &&& forall|i: int|
        0 <= i < g.edges.len() ==> same_edge(#[trigger] edges[i], g.edges[i]) && edge_stays(key)(
            edges[i],
        ) && edge_released(key)(edges[i]) == g.edges[i]
    &&& forall|i: int|
        g.edges.len() <= i < edges.len() ==> !edge_stays(key)(#[trigger] edges[i])
}

/// Writing one edge of a source keeps that.
proof fn edge_gives_back(
    edges: Seq<EdgeRow>,
    g: Graph,
    row: EdgeRow,
    key: Seq<char>,
)
    requires
        gives_back(edges, g, key),
        entry_like(key),
        row.relationship_name is Some,
        row.source_ref_keys == Some(list_text(seq![key])),
        edge_index(g.edges, row.from_id, row.to_id, row.relationship_name) matches Some(i)
            ==> tidy(g.edges[i].source_ref_keys) && !entries_opt(
            g.edges[i].source_ref_keys,
        ).contains(key),
    ensures
        gives_back(put_edge(edges, edge_merged(g, row, key)), g, key),
{
    let new = edge_merged(g, row, key);
    let after = put_edge(edges, new);
    edge_index_is_first(g.edges, row.from_id, row.to_id, row.relationship_name);
    edge_index_is_first(edges, row.from_id, row.to_id, row.relationship_name);
    sole_entry(key);
    sole_owner_iff_counts_agree(row.source_ref_keys, key);
    let at = edge_index(edges, row.from_id, row.to_id, row.relationship_name);
    match edge_index(g.edges, row.from_id, row.to_id, row.relationship_name) {
        Some(i) => {
            assert(same_edge(edges[i], g.edges[i]));
            if let Some(k) = at {
                if k < i {
                    assert(same_edge(edges[k], g.edges[k]));
                }
                assert(k == i);
            }
            let raw = g.edges[i].source_ref_keys;
            shared_after_merge(raw, key);
            sole_owner_iff_counts_agree(Some(merged(raw, key)), key);
            assert(edge_released(key)(edges[i]) == g.edges[i]);
            assert(after[i] == edge_with_refs(g.edges[i], merged(raw, key)));
            assert(stripped(merged(raw, key), key) == raw->0);
            assert forall|j: int| 0 <= j < edges.len() && j != i implies after[j]
                == edges[j] by {}
        },
        None => {
            if let Some(k) = at {
                if k < g.edges.len() {
                    assert(same_edge(edges[k], g.edges[k]));
                }
                assert(k >= g.edges.len());
                assert forall|j: int| 0 <= j < edges.len() && j != k implies after[j]
                    == edges[j] by {}
            } else {
                assert forall|j: int| 0 <= j < edges.len() implies after[j] == edges[j] by {}
            }
        },
    }
}

proof fn edges_give_back(
    g: Graph,
    points: Seq<DatapointRow>,
    edges: Seq<RawEdgeRow>,
    dataset: u128,
    data: u128,
    run: u128,
)
    requires
        knows_nothing_of(g, source_ref_of(uuid_text(dataset), uuid_text(data))),
        edges_tidy(g, edges),
    ensures
        gives_back(
            put_edges(g.edges, new_edges(g, points, edges, dataset, data, run)),
            g,
            source_ref_of(uuid_text(dataset), uuid_text(data)),
        ),
    decreases edges.len(),
{
    let key = source_ref_of(uuid_text(dataset), uuid_text(data));
    let rows = new_edges(g, points, edges, dataset, data, run);
    entry_is_plain(dataset, data);
    if edges.len() > 0 {
        let head = edges.drop_last();
        assert forall|k: int| 0 <= k < head.len() implies (edge_index(
            g.edges,
            (#[trigger] head[k]).from_id,
            head[k].to_id,
            Some(head[k].relationship_name),
        ) matches Some(i) ==> tidy(g.edges[i].source_ref_keys)) by {
            assert(head[k] == edges[k]);
        }
        edges_give_back(g, points, head, dataset, data, run);
        assert(rows.drop_last() =~= new_edges(g, points, head, dataset, data, run));
        let last = edges[edges.len() - 1];
        let row = edge_row_of(points, last, uuid_text(dataset), uuid_text(data), uuid_text(run));
        assert(rows.last() == edge_merged(g, row, key));
        edge_index_is_first(g.edges, row.from_id, row.to_id, row.relationship_name);
        edge_gives_back(put_edges(g.edges, rows.drop_last()), g, row, key);
    } else {
        assert(rows =~= Seq::<EdgeRow>::empty());
    }
}

/// Forgetting what was just remembered leaves the edge rows that there were.
#[verifier::spinoff_prover]
proof fn edges_come_back(
    g: Graph,
    points: Seq<DatapointRow>,
    edges: Seq<RawEdgeRow>,
    dataset: u128,
    data: u128,
    run: u128,
)
    requires
        knows_nothing_of(g, source_ref_of(uuid_text(dataset), uuid_text(data))),
        edges_tidy(g, edges),
    ensures
        graph_without(
            graph_with(g, points, edges, dataset, data, run),
            source_ref_of(uuid_text(dataset), uuid_text(data)),
        ).edges == g.edges,
{
    let key = source_ref_of(uuid_text(dataset), uuid_text(data));
    let with = graph_with(g, points, edges, dataset, data, run).edges;
    let n = g.edges.len() as int;
    let pred = edge_stays(key);
    edges_give_back(g, points, edges, dataset, data, run);
    let front = with.take(n);
    let back = with.skip(n);
    assert(with =~= front + back);
    Seq::<EdgeRow>::filter_distributes_over_add(front, back, pred);
    assert forall|i: int| 0 <= i < front.len() implies pred(#[trigger] front[i]) by {
        assert(front[i] == with[i]);
    }
    all_are_kept(front, pred);
    filter_members(back, pred);
    assert(back.filter(pred).len() == 0) by {
        if back.filter(pred).len() > 0 {
            let e = back.filter(pred)[0];
            assert(back.contains(e));
            let k = choose|k: int| 0 <= k < back.len() && back[k] == e;
            assert(with[n + k] == e);
        }
    }
    assert(with.filter(pred) =~= front);
    assert(with.filter(pred).map_values(edge_released(key)) =~= g.edges) by {
        assert forall|i: int| 0 <= i < n implies edge_released(key)(#[trigger] front[i])
            == g.edges[i] by {
            assert(front[i] == with[i]);
        }
    }
}

/// Rows with distinct identifiers are as many as their identifiers.
proof fn as_many_as_ids(a: Seq<NodeRow>, b: Seq<NodeRow>)
    requires
        distinct_ids(a),
        distinct_ids(b),
        forall|id: Seq<char>| #[trigger] has_node(a, id) <==> has_node(b, id),
    ensures
        a.len() == b.len(),
{
    let x = node_ids(a);
    let y = node_ids(b);
    assert(x.no_duplicates()) by {
        assert forall|i: int, j: int| 0 <= i < x.len() && 0 <= j < x.len() && i != j implies x[i]
            != x[j] by {
            assert(a[i].id == x[i] && a[j].id == x[j]);
            if i < j {
                assert(a[i].id != a[j].id);
            } else {
                assert(a[j].id != a[i].id);
            }
        }
    }
    assert(y.no_duplicates()) by {
        assert forall|i: int, j: int| 0 <= i < y.len() && 0 <= j < y.len() && i != j implies y[i]
            != y[j] by {
            assert(b[i].id == y[i] && b[j].id == y[j]);
            if i < j {
                assert(b[i].id != b[j].id);
            } else {
                assert(b[j].id != b[i].id);
            }
        }
    }
    x.unique_seq_to_set();
    y.unique_seq_to_set();
    assert forall|id: Seq<char>| x.contains(id) <==> has_node(a, id) by {
        if x.contains(id) {
            let i = choose|i: int| 0 <= i < x.len() && x[i] == id;
            assert(a[i].id == id);
        }
        if has_node(a, id) {
            let i = choose|i: int| 0 <= i < a.len() && (#[trigger] a[i]).id == id;
            assert(x[i] == id);
        }
    }
    assert forall|id: Seq<char>| y.contains(id) <==> has_node(b, id) by {
        if y.contains(id) {
            let i = choose|i: int| 0 <= i < y.len() && y[i] == id;
            assert(b[i].id == id);
        }
        if has_node(b, id) {
            let i = choose|i: int| 0 <= i < b.len() && (#[trigger] b[i]).id == id;
            assert(y[i] == id);
        }
    }
    assert(x.to_set() =~= y.to_set());
}

/// Remembering a text and then forgetting it gives the graph back: as many nodes,
/// with the same identifiers, each with the owners that it had; the same edge
/// rows; the same metadata. Nothing that was there may name the new data item already;
/// what was there of the text's own nodes must have had an owner, and of its own
/// edges one in a list that is spelled as this library spells it.
pub proof fn forget_undoes_remember(
    g: Graph,
    points: Seq<DatapointRow>,
    edges: Seq<RawEdgeRow>,
    dataset: u128,
    data: u128,
    run: u128,
)
    requires
        distinct_ids(g.nodes),
        knows_nothing_of(g, source_ref_of(uuid_text(dataset), uuid_text(data))),
        nodes_owned(g, points),
        edges_tidy(g, edges),
    ensures
        ({
            let key = source_ref_of(uuid_text(dataset), uuid_text(data));
            let after = graph_without(graph_with(g, points, edges, dataset, data, run), key);
            &&& forall|id: Seq<char>| #[trigger]
                has_node(after.nodes, id) <==> has_node(g.nodes, id)
            &&& forall|i: int|
                0 <= i < g.nodes.len() ==> owned_alike(after.nodes, #[trigger] g.nodes[i])
            &&& after.nodes.len() == g.nodes.len()
            &&& after.edges == g.edges
            &&& after.metadata == g.metadata
        }),
{
    let key = source_ref_of(uuid_text(dataset), uuid_text(data));
    let with = graph_with(g, points, edges, dataset, data, run);
    let after = graph_without(with, key);
    let kept = with.nodes.filter(node_stays(key));
    nodes_come_back(g, points, edges, dataset, data, run);
    put_nodes_keeps_distinct(g.nodes, new_nodes(g, points, dataset, data, run));
    filter_keeps_distinct(with.nodes, node_stays(key));
    assert(distinct_ids(after.nodes)) by {
        assert forall|i: int, j: int|
            #![trigger after.nodes[i], after.nodes[j]]
            0 <= i < j < after.nodes.len() implies after.nodes[i].id != after.nodes[j].id by {
            assert(after.nodes[i].id == kept[i].id);
            assert(after.nodes[j].id == kept[j].id);
        }
    }
    as_many_as_ids(after.nodes, g.nodes);
    edges_come_back(g, points, edges, dataset, data, run);
}

/// What writing edges leaves: the rows that there were, in place, and behind them
/// rows of those that were written.
proof fn written_edges(edges: Seq<EdgeRow>, rows: Seq<EdgeRow>)
    ensures
        put_edges(edges, rows).len() >= edges.len(),
        forall|i: int|
            0 <= i < edges.len() ==> same_edge(#[trigger] put_edges(edges, rows)[i], edges[i]),
        forall|i: int|
            edges.len() <= i < put_edges(edges, rows).len() ==> has_edge(
                rows,
                #[trigger] put_edges(edges, rows)[i],
            ),
    decreases rows.len(),
{
    if rows.len() > 0 {
        let head = rows.drop_last();
        let row = rows[rows.len() - 1];
        written_edges(edges, head);
        let before = put_edges(edges, head);
        let after = put_edges(edges, rows);
        edge_index_is_first(before, row.from_id, row.to_id, row.relationship_name);
        assert forall|i: int| edges.len() <= i < after.len() implies has_edge(
            rows,
            #[trigger] after[i],
        ) by {
            if i < before.len() {
                assert(same_edge(after[i], before[i]));
                assert(has_edge(head, before[i]));
                let k = choose|k: int|
                    0 <= k < head.len() && same_edge(#[trigger] head[k], before[i]);
                assert(same_edge(rows[k], after[i]));
            } else {
                assert(same_edge(row, after[i]));
            }
        }
        assert forall|i: int| 0 <= i < edges.len() implies same_edge(
            #[trigger] after[i],
            edges[i],
        ) by {
            assert(same_edge(before[i], edges[i]));
        }
    }
}

/// No edge is there twice.
pub open spec fn edges_once(edges: Seq<EdgeRow>) -> bool {
    forall|i: int, j: int|
        #![trigger edges[i], edges[j]]
        0 <= i < j < edges.len() ==> !same_edge(edges[i], edges[j])
}

/// Leaving duplicates out changes nothing exactly where there are none.
proof fn once_iff_dedup_is_same(edges: Seq<EdgeRow>)
    ensures
        dedup_of(edges) == edges <==> edges_once(edges),
    decreases edges.len(),
{
    dedup_keeps_each_once(edges);
    if edges.len() > 0 {
        let head = edges.drop_last();
        once_iff_dedup_is_same(head);
        if edges_once(edges) {
            assert forall|i: int, j: int|
                #![trigger head[i], head[j]]
                0 <= i < j < head.len() implies !same_edge(head[i], head[j]) by {
                assert(head[i] == edges[i] && head[j] == edges[j]);
            }
            if has_edge(head, edges.last()) {
                let k = choose|k: int|
                    0 <= k < head.len() && same_edge(#[trigger] head[k], edges.last());
                assert(same_edge(edges[k], edges[edges.len() - 1]));
            }
            assert(head.push(edges.last()) =~= edges);
        }
    }
}

proof fn written_edges_are_once(edges: Seq<EdgeRow>, rows: Seq<EdgeRow>)
    requires
        edges_once(edges),
        forall|k: int| 0 <= k < rows.len() ==> (#[trigger] rows[k]).relationship_name is Some,
    ensures
        edges_once(put_edges(edges, rows)),
    decreases rows.len(),
{
    if rows.len() > 0 {
        let head = rows.drop_last();
        let row = rows[rows.len() - 1];
        assert forall|k: int| 0 <= k < head.len() implies (
        #[trigger] head[k]).relationship_name is Some by {
            assert(head[k] == rows[k]);
        }
        written_edges_are_once(edges, head);
        let before = put_edges(edges, head);
        let after = put_edges(edges, rows);
        edge_index_is_first(before, row.from_id, row.to_id, row.relationship_name);
        assert forall|i: int, j: int|
            #![trigger after[i], after[j]]
            0 <= i < j < after.len() implies !same_edge(after[i], after[j]) by {
            assert(same_edge(after[i], before[i]));
            if j < before.len() {
                assert(same_edge(after[j], before[j]));
                assert(!same_edge(before[i], before[j]));
            }
        }
    }
}

/// Remembering collapses duplicates: where no edge is in the graph twice, none is
/// afterwards.
pub proof fn duplicate_edges_collapse(
    g: Graph,
    points: Seq<DatapointRow>,
    edges: Seq<RawEdgeRow>,
    dataset: u128,
    data: u128,
    run: u128,
)
    requires
        dedup_of(g.edges) == g.edges,
    ensures
        ({
            let after = graph_with(g, points, edges, dataset, data, run).edges;
            dedup_of(after) == after
        }),
{
    let rows = new_edges(g, points, edges, dataset, data, run);
    assert forall|k: int| 0 <= k < rows.len() implies (
    #[trigger] rows[k]).relationship_name is Some by {
        let row = edge_row_of(
            points,
            edges[k],
            uuid_text(dataset),
            uuid_text(data),
            uuid_text(run),
        );
        let key = source_ref_of(uuid_text(dataset), uuid_text(data));
        assert(rows[k] == edge_merged(g, row, key));
    }
    once_iff_dedup_is_same(g.edges);
    written_edges_are_once(g.edges, rows);
    once_iff_dedup_is_same(put_edges(g.edges, rows));
}

/// Among the nodes is one with that identifier that the data item owns.
pub open spec fn owned_by(nodes: Seq<NodeRow>, id: Seq<char>, key: Seq<char>) -> bool {
    exists|i: int|
        0 <= i < nodes.len() && (#[trigger] nodes[i]).id == id && entries_opt(
            nodes[i].source_ref_keys,
        ).contains(key)
}

/// Among the edges is one with those ends and that relationship that the data
/// item owns.
pub open spec fn edge_owned_by(edges: Seq<EdgeRow>, e: EdgeRow, key: Seq<char>) -> bool {
    exists|i: int|
        0 <= i < edges.len() && same_edge(#[trigger] edges[i], e) && entries_opt(
            edges[i].source_ref_keys,
        ).contains(key)
}

proof fn written_edges_are_owned(edges: Seq<EdgeRow>, rows: Seq<EdgeRow>, key: Seq<char>)
    requires
        forall|k: int|
            0 <= k < rows.len() ==> entries_opt((#[trigger] rows[k]).source_ref_keys).contains(key),
    ensures
        forall|k: int|
            0 <= k < rows.len() ==> edge_owned_by(put_edges(edges, rows), #[trigger] rows[k], key),
    decreases rows.len(),
{
    if rows.len() > 0 {
        let head = rows.drop_last();
        let row = rows[rows.len() - 1];
        assert forall|k: int| 0 <= k < head.len() implies entries_opt(
            (#[trigger] head[k]).source_ref_keys,
        ).contains(key) by {
            assert(head[k] == rows[k]);
        }
        written_edges_are_owned(edges, head, key);
        let before = put_edges(edges, head);
        let after = put_edges(edges, rows);
        edge_index_is_first(before, row.from_id, row.to_id, row.relationship_name);
        let at = edge_index(before, row.from_id, row.to_id, row.relationship_name);
        assert forall|k: int| 0 <= k < rows.len() implies edge_owned_by(
            after,
            #[trigger] rows[k],
            key,
        ) by {
            if k < head.len() {
                assert(head[k] == rows[k]);
                assert(edge_owned_by(before, head[k], key));
                let i = choose|i: int|
                    0 <= i < before.len() && same_edge(#[trigger] before[i], head[k])
                        && entries_opt(before[i].source_ref_keys).contains(key);
                assert(same_edge(after[i], rows[k]));
            } else {
                let i = match at {
                    Some(i) => i,
                    None => before.len() as int,
                };
                assert(same_edge(after[i], rows[k]));
            }
        }
    }
}

/// What was remembered is there: every data point of a source has a node in the
/// graph afterwards, and every edge of the source a row, which name the data item
/// among their owners.
pub proof fn remembered_is_owned(
    g: Graph,
    points: Seq<DatapointRow>,
    edges: Seq<RawEdgeRow>,
    dataset: u128,
    data: u128,
    run: u128,
)
    ensures
        forall|k: int|
            0 <= k < points.len() ==> owned_by(
                graph_with(g, points, edges, dataset, data, run).nodes,
                uuid_text((#[trigger] points[k]).id),
                source_ref_of(uuid_text(dataset), uuid_text(data)),
            ),
        forall|k: int|
            0 <= k < edges.len() ==> edge_owned_by(
                graph_with(g, points, edges, dataset, data, run).edges,
                #[trigger] edge_row_of(
                    points,
                    edges[k],
                    uuid_text(dataset),
                    uuid_text(data),
                    uuid_text(run),
                ),
                source_ref_of(uuid_text(dataset), uuid_text(data)),
            ),
{
    let key = source_ref_of(uuid_text(dataset), uuid_text(data));
    let rows = new_nodes(g, points, dataset, data, run);
    let after = graph_with(g, points, edges, dataset, data, run).nodes;
    let added = new_edges(g, points, edges, dataset, data, run);
    entry_is_plain(dataset, data);
    sole_entry(key);
    assert forall|k: int| 0 <= k < added.len() implies entries_opt(
        (#[trigger] added[k]).source_ref_keys,
    ).contains(key) by {
        let row = edge_row_of(
            points,
            edges[k],
            uuid_text(dataset),
            uuid_text(data),
            uuid_text(run),
        );
        assert(added[k] == edge_merged(g, row, key));
        match edge_index(g.edges, row.from_id, row.to_id, row.relationship_name) {
            Some(i) => {
                merge_adds_once(g.edges[i].source_ref_keys, key);
            },
            None => {},
        }
    }
    written_edges_are_owned(g.edges, added, key);
    assert forall|k: int| 0 <= k < edges.len() implies edge_owned_by(
        graph_with(g, points, edges, dataset, data, run).edges,
        #[trigger] edge_row_of(
            points,
            edges[k],
            uuid_text(dataset),
            uuid_text(data),
            uuid_text(run),
        ),
        key,
    ) by {
        let row = edge_row_of(
            points,
            edges[k],
            uuid_text(dataset),
            uuid_text(data),
            uuid_text(run),
        );
        assert(added[k] == edge_merged(g, row, key));
        let whole = graph_with(g, points, edges, dataset, data, run).edges;
        assert(edge_owned_by(whole, added[k], key));
        let i = choose|i: int|
            0 <= i < whole.len() && same_edge(#[trigger] whole[i], added[k]) && entries_opt(
                whole[i].source_ref_keys,
            ).contains(key);
        assert(same_edge(whole[i], row));
    }
    entry_is_plain(dataset, data);
    written_rows(g.nodes, rows);
    assert forall|k: int| 0 <= k < points.len() implies owned_by(
        after,
        uuid_text((#[trigger] points[k]).id),
        key,
    ) by {
        let id = uuid_text(points[k].id);
        assert(rows[k].id == id);
        assert(has_node(rows, id));
        assert(has_node(after, id));
        let i = choose|i: int| 0 <= i < after.len() && (#[trigger] after[i]).id == id;
        assert(after.contains(after[i]));
        assert(rows.contains(after[i]));
        let j = choose|j: int| 0 <= j < rows.len() && rows[j] == after[i];
        let row = node_row_of(points[j], uuid_text(dataset), uuid_text(data), uuid_text(run));
        assert(rows[j] == node_merged(g, row, key));
        match node_index(g.nodes, row.id) {
            Some(m) => {
                merge_adds_once(g.nodes[m].source_ref_keys, key);
            },
            None => {
                sole_entry(key);
            },
        }
    }
}

/// Forgetting another data item gives no row an owner.
proof fn no_owner_is_new(g: Graph, key: Seq<char>, other: Seq<char>)
    requires
        knows_nothing_of(g, other),
    ensures
        knows_nothing_of(graph_without(g, key), other),
{
    let kept = g.nodes.filter(node_stays(key));
    let after = graph_without(g, key).nodes;
    filter_members(g.nodes, node_stays(key));
    assert forall|i: int| 0 <= i < after.len() implies !entries_opt(
        (#[trigger] after[i]).source_ref_keys,
    ).contains(other) by {
        let n = kept[i];
        assert(after[i] == node_released(key)(n));
        assert(kept.contains(n));
        assert(g.nodes.contains(n));
        let m = choose|m: int| 0 <= m < g.nodes.len() && g.nodes[m] == n;
        assert(!entries_opt(g.nodes[m].source_ref_keys).contains(other));
        if n.source_ref_keys is Some {
            let raw = n.source_ref_keys->0;
            strip_leaves_the_others(raw, key);
            filter_members(entries(raw), other_than(key));
        }
    }
    let stayed = g.edges.filter(edge_stays(key));
    let left = graph_without(g, key).edges;
    filter_members(g.edges, edge_stays(key));
    assert forall|i: int| 0 <= i < left.len() implies !entries_opt(
        (#[trigger] left[i]).source_ref_keys,
    ).contains(other) by {
        let e = stayed[i];
        assert(left[i] == edge_released(key)(e));
        assert(g.edges.contains(e));
        let m = choose|m: int| 0 <= m < g.edges.len() && g.edges[m] == e;
        assert(!entries_opt(g.edges[m].source_ref_keys).contains(other));
        if e.source_ref_keys is Some {
            let raw = e.source_ref_keys->0;
            strip_leaves_the_others(raw, key);
            filter_members(entries(raw), other_than(key));
        }
    }
}

/// What was forgotten is gone: no node and no edge names any of the data items
/// among its owners, and none of them has a row. Where every node and every edge
/// had an owner, what is left has one.
pub proof fn forgotten_is_gone(g: Graph, data: Seq<DataEntry>, items: Seq<(Uuid, Uuid)>)
    ensures
        forall|k: int|
            0 <= k < items.len() ==> knows_nothing_of(
                swept(g, data, items).graph,
                item_key(#[trigger] items[k]),
            ),
        forall|k: int, i: int|
            #![trigger items[k], swept(g, data, items).data[i]]
            0 <= k < items.len() && 0 <= i < swept(g, data, items).data.len() ==> swept(
                g,
                data,
                items,
            ).data[i].id != simple_text(items[k].0.value),
        all_owned(g) ==> all_owned(swept(g, data, items).graph),
    decreases items.len(),
{
    if items.len() > 0 {
        let head = items.drop_last();
        let last = items.last();
        let before = swept(g, data, head);
        let after = swept(g, data, items);
        let key = item_key(last);
        forgotten_is_gone(g, data, head);
        entry_is_plain(last.1.value, last.0.value);
        no_node_names_it(before.graph, key);
        no_edge_names_it(before.graph, key);
        if all_owned(g) {
            what_is_left_is_owned(before.graph, key);
        }
        let pred = data_other_than(simple_text(last.0.value));
        filter_members(before.data, pred);
        assert forall|k: int| 0 <= k < items.len() implies knows_nothing_of(
            after.graph,
            item_key(#[trigger] items[k]),
        ) by {
            if k < head.len() {
                assert(head[k] == items[k]);
                no_owner_is_new(before.graph, key, item_key(head[k]));
            }
        }
        assert forall|k: int, i: int|
            #![trigger items[k], after.data[i]]
            0 <= k < items.len() && 0 <= i < after.data.len() implies after.data[i].id
            != simple_text(items[k].0.value) by {
            assert(after.data.contains(after.data[i]));
            if k < head.len() {
                assert(head[k] == items[k]);
                let m = choose|m: int| 0 <= m < before.data.len() && before.data[m]
                    == after.data[i];
                assert(before.data[m].id != simple_text(head[k].0.value));
            }
        }
    }
}

/// The endpoints of every edge that a source gives a graph are nodes of the
/// graph afterwards.
pub proof fn new_edges_do_not_dangle(
    g: Graph,
    src: SourceRow,
    ids: Seq<u128>,
    chunks: Seq<ChunkRow>,
    graphs: Seq<GraphFound>,
    summaries: Seq<Seq<char>>,
    dataset: u128,
    data: u128,
    run: u128,
)
    ensures
        ({
            let b = built_of(src, ids, chunks, graphs, summaries);
            let after = graph_with(g, points_of(b), dedup_raw(b.edges), dataset, data, run);
            forall|i: int|
                g.edges.len() <= i < after.edges.len() ==> has_node(
                    after.nodes,
                    (#[trigger] after.edges[i]).from_id,
                ) && has_node(after.nodes, after.edges[i].to_id)
        }),
{
    let b = built_of(src, ids, chunks, graphs, summaries);
    let points = points_of(b);
    let raw = dedup_raw(b.edges);
    let after = graph_with(g, points, raw, dataset, data, run);
    let rows = new_nodes(g, points, dataset, data, run);
    source_is_closed(src, ids, chunks, graphs, summaries);
    dedup_raw_keeps_each_once(b.edges);
    let added = new_edges(g, points, raw, dataset, data, run);
    written_rows(g.nodes, rows);
    written_edges(g.edges, added);
    assert forall|i: int| g.edges.len() <= i < after.edges.len() implies has_node(
        after.nodes,
        (#[trigger] after.edges[i]).from_id,
    ) && has_node(after.nodes, after.edges[i].to_id) by {
        assert(has_edge(added, after.edges[i]));
        let j = choose|j: int|
            0 <= j < added.len() && same_edge(#[trigger] added[j], after.edges[i]);
        let e = raw[j];
        assert(after.edges[i].from_id == e.from_id && after.edges[i].to_id == e.to_id);
        assert(b.edges.contains(e));
        let k = choose|k: int| 0 <= k < b.edges.len() && b.edges[k] == e;
        assert(joins(b, b.edges[k]));
        let (from, to) = choose|from: u128, to: u128|
            #![trigger uuid_text(from), uuid_text(to)]
            e.from_id == uuid_text(from) && e.to_id == uuid_text(to) && has_id(b, from) && has_id(
                b,
                to,
            );
        point_is_written(g, b, from, dataset, data, run);
        point_is_written(g, b, to, dataset, data, run);
    }
}

/// A data point has a row among those written.
proof fn point_is_written(g: Graph, b: Built, id: u128, dataset: u128, data: u128, run: u128)
    requires
        has_id(b, id),
    ensures
        has_node(new_nodes(g, points_of(b), dataset, data, run), uuid_text(id)),
{
    let points = points_of(b);
    let at = if has_point(b.points, id) {
        choose|i: int| 0 <= i < b.points.len() && (#[trigger] b.points[i]).id == id
    } else if has_point(b.types, id) {
        b.points.len() + choose|i: int| 0 <= i < b.types.len() && (#[trigger] b.types[i]).id == id
    } else {
        b.points.len() + b.types.len() + choose|i: int|
            0 <= i < b.entities.len() && (#[trigger] b.entities[i]).id == id
    };
    assert(points[at].id == id);
    assert(new_nodes(g, points, dataset, data, run)[at].id == uuid_text(id));
}

} // verus!
