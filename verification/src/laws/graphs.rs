//! What the graph is asked, and what is taken out of it.

use vstd::prelude::*;

use crate::lists::filter_members;
use crate::pattern::{find_from_is_first, find_of, join_of, occurs_at, split_str_of};
use crate::storage::graph::{
    dedup_keeps_each_once, dedup_of, edge_among, edge_dangling, edge_from, edge_index,
    edge_index_is_first, edge_key, edge_merged, edge_not_among, edge_not_between, edge_out_of,
    edge_released, edge_stays, has_edge, has_node, neighbours_of, node_from, node_index,
    node_index_is_first, node_merged, node_not_among, node_of_type, qualified_of, rel_names,
    same_edge, type_names, EdgeRow, Graph, NodeRow,
};
use crate::storage::refs::{entries_opt, entry_like, merge_adds_once};

verus! {

/// The nodes of a type are those of the store with that type.
pub proof fn nodes_of_a_type(nodes: Seq<NodeRow>, type_: Seq<char>, n: NodeRow)
    ensures
        nodes.filter(node_of_type(type_)).contains(n) <==> nodes.contains(n) && n.type_ == Some(
            type_,
        ),
{
    filter_members(nodes, node_of_type(type_));
}

/// The edges out of a node are those that begin there; those within a set of nodes
/// begin and end there.
pub proof fn edges_at_nodes(edges: Seq<EdgeRow>, id: Seq<char>, ids: Seq<Seq<char>>, e: EdgeRow)
    ensures
        edges.filter(edge_out_of(id)).contains(e) <==> edges.contains(e) && e.from_id == id,
        edges.filter(edge_among(ids)).contains(e) <==> edges.contains(e) && ids.contains(e.from_id)
            && ids.contains(e.to_id),
{
    filter_members(edges, edge_out_of(id));
    filter_members(edges, edge_among(ids));
}

/// An edge leads nowhere where no node has the identifier of one of its ends. What
/// is told of it are its ends and its relationship, empty where it has none.
pub proof fn edges_that_lead_nowhere(nodes: Seq<NodeRow>, edges: Seq<EdgeRow>, e: EdgeRow)
    ensures
        edges.filter(edge_dangling(nodes)).contains(e) <==> edges.contains(e) && ((forall|i: int|
            0 <= i < nodes.len() ==> (#[trigger] nodes[i]).id != e.from_id) || (forall|i: int|
            0 <= i < nodes.len() ==> (#[trigger] nodes[i]).id != e.to_id)),
        edge_key(e).0 == e.from_id,
        edge_key(e).1 == e.to_id,
        e.relationship_name is Some ==> edge_key(e).2 == e.relationship_name->0,
        e.relationship_name is None ==> edge_key(e).2.len() == 0,
{
    filter_members(edges, edge_dangling(nodes));
}

/// The rows that come from a data item are those whose owners name it.
pub proof fn rows_of_a_data_item(
    nodes: Seq<NodeRow>,
    edges: Seq<EdgeRow>,
    key: Seq<char>,
    n: NodeRow,
    e: EdgeRow,
)
    ensures
        nodes.filter(node_from(key)).contains(n) <==> nodes.contains(n) && entries_opt(
            n.source_ref_keys,
        ).contains(key),
        edges.filter(edge_from(key)).contains(e) <==> edges.contains(e) && entries_opt(
            e.source_ref_keys,
        ).contains(key),
{
    filter_members(nodes, node_from(key));
    filter_members(edges, edge_from(key));
}

/// Deleting nodes or edges takes those named, and no others.
pub proof fn deleting_takes_what_is_named(
    nodes: Seq<NodeRow>,
    edges: Seq<EdgeRow>,
    ids: Seq<Seq<char>>,
    pairs: Seq<(Seq<char>, Seq<char>)>,
    triples: Seq<(Seq<char>, Seq<char>, Seq<char>)>,
    n: NodeRow,
    e: EdgeRow,
)
    ensures
        nodes.filter(node_not_among(ids)).contains(n) <==> nodes.contains(n) && !ids.contains(n.id),
        edges.filter(edge_not_between(pairs)).contains(e) <==> edges.contains(e) && !pairs.contains(
            (e.from_id, e.to_id),
        ),
        edges.filter(edge_not_among(triples)).contains(e) <==> edges.contains(e) && !(
        e.relationship_name is Some && triples.contains(
            (e.from_id, e.to_id, e.relationship_name->0),
        )),
{
    filter_members(nodes, node_not_among(ids));
    filter_members(edges, edge_not_between(pairs));
    filter_members(edges, edge_not_among(triples));
}

/// Of edges that run alike the first row is kept as it is.
pub proof fn first_row_is_kept(edges: Seq<EdgeRow>, i: int)
    requires
        0 <= i < edges.len(),
        forall|j: int|
            0 <= j < i ==> !((#[trigger] edges[j]).from_id == edges[i].from_id && edges[j].to_id
                == edges[i].to_id && edges[j].relationship_name == edges[i].relationship_name),
    ensures
        dedup_of(edges).contains(edges[i]),
    decreases edges.len(),
{
    let head = edges.drop_last();
    let before = dedup_of(head);
    let after = dedup_of(edges);
    if i < head.len() {
        assert forall|j: int| 0 <= j < i implies !((#[trigger] head[j]).from_id == head[i].from_id
            && head[j].to_id == head[i].to_id && head[j].relationship_name
            == head[i].relationship_name) by {
            assert(head[j] == edges[j]);
        }
        first_row_is_kept(head, i);
        let k = choose|k: int| 0 <= k < before.len() && before[k] == head[i];
        assert(after[k] == edges[i]);
    } else {
        dedup_keeps_each_once(head);
        if has_edge(before, edges[i]) {
            assert(has_edge(head, edges[i]));
            let k = choose|k: int| 0 <= k < head.len() && same_edge(#[trigger] head[k], edges[i]);
            assert(head[k] == edges[k]);
        }
        assert(after[before.len() as int] == edges[i]);
    }
}

/// The types and relationships that are counted are those of the rows, in order;
/// a row without one counts under the empty name.
pub proof fn what_is_counted(nodes: Seq<NodeRow>, edges: Seq<EdgeRow>, i: int)
    ensures
        type_names(nodes).len() == nodes.len(),
        rel_names(edges).len() == edges.len(),
        0 <= i < nodes.len() ==> type_names(nodes)[i] == (match nodes[i].type_ {
            Some(t) => t,
            None => Seq::empty(),
        }),
        0 <= i < edges.len() ==> rel_names(edges)[i] == (match edges[i].relationship_name {
            Some(r) => r,
            None => Seq::empty(),
        }),
{
}

/// The neighbours of a node are the nodes at the far end of its edges: of those with
/// one of the relationships named, or of all where none is.
pub proof fn neighbours_are_one_edge_away(
    nodes: Seq<NodeRow>,
    edges: Seq<EdgeRow>,
    id: Seq<char>,
    rels: Seq<Seq<char>>,
    i: int,
)
    requires
        0 <= i < nodes.len(),
        forall|j: int| 0 <= j < i ==> (#[trigger] nodes[j]).id != nodes[i].id,
    ensures
        neighbours_of(nodes, edges, id, rels).contains(nodes[i]) <==> exists|k: int|
            0 <= k < edges.len() && (#[trigger] edges[k]).from_id == id && edges[k].to_id
                == nodes[i].id && (rels.len() == 0 || (edges[k].relationship_name is Some
                && rels.contains(edges[k].relationship_name->0))),
    decreases edges.len(),
{
    if edges.len() > 0 {
        let head = edges.drop_last();
        let e = edges.last();
        assert(edges[edges.len() - 1] == e);
        assert(forall|k: int| 0 <= k < head.len() ==> #[trigger] head[k] == edges[k]);
        neighbours_are_one_edge_away(nodes, head, id, rels, i);
        node_index_is_first(nodes, e.to_id);
        let before = neighbours_of(nodes, head, id, rels);
        let after = neighbours_of(nodes, edges, id, rels);
        if before.contains(nodes[i]) {
            let m = choose|m: int| 0 <= m < before.len() && before[m] == nodes[i];
            assert(after[m] == nodes[i]);
            let k = choose|k: int|
                0 <= k < head.len() && (#[trigger] head[k]).from_id == id && head[k].to_id
                    == nodes[i].id && (rels.len() == 0 || (head[k].relationship_name is Some
                    && rels.contains(head[k].relationship_name->0)));
            assert(edges[k].from_id == id);
        }
        if after.contains(nodes[i]) && !before.contains(nodes[i]) {
            let m = choose|m: int| 0 <= m < after.len() && after[m] == nodes[i];
            if m < before.len() {
                assert(before[m] == nodes[i]);
            }
            assert(after[m] == nodes[node_index(nodes, e.to_id)->0]);
        }
        if e.from_id == id && e.to_id == nodes[i].id && (rels.len() == 0 || (
        e.relationship_name is Some && rels.contains(e.relationship_name->0))) {
            let at = node_index(nodes, e.to_id)->0;
            if at < i {
                assert(nodes[at].id != nodes[i].id);
            }
            if i < at {
                assert(nodes[i].id != e.to_id);
            }
            assert(after[before.len() as int] == nodes[i]);
        }
        if exists|k: int|
            0 <= k < edges.len() && (#[trigger] edges[k]).from_id == id && edges[k].to_id
                == nodes[i].id && (rels.len() == 0 || (edges[k].relationship_name is Some
                && rels.contains(edges[k].relationship_name->0))) {
            let k = choose|k: int|
                0 <= k < edges.len() && (#[trigger] edges[k]).from_id == id && edges[k].to_id
                    == nodes[i].id && (rels.len() == 0 || (edges[k].relationship_name is Some
                    && rels.contains(edges[k].relationship_name->0)));
            if k < head.len() {
                assert(head[k].from_id == id);
                assert(before.contains(nodes[i]));
            }
        }
    } else {
        assert(!neighbours_of(nodes, edges, id, rels).contains(nodes[i]));
    }
}

/// A node that the store has already keeps its owners there and gets one more;
/// nothing else of the new row changes. One that the store does not have stays as
/// given.
pub proof fn owners_are_added(g: Graph, n: NodeRow, key: Seq<char>, i: int)
    requires
        entry_like(key),
    ensures
        0 <= i < g.nodes.len() && g.nodes[i].id == n.id && (forall|j: int|
            0 <= j < i ==> (#[trigger] g.nodes[j]).id != n.id) ==> {
            let m = node_merged(g, n, key);
            let had = entries_opt(g.nodes[i].source_ref_keys);
            &&& m == (NodeRow { source_ref_keys: m.source_ref_keys, ..n })
            &&& entries_opt(m.source_ref_keys) == (if had.contains(key) {
                had
            } else {
                had.push(key)
            })
        },
        !has_node(g.nodes, n.id) ==> node_merged(g, n, key) == n,
{
    node_index_is_first(g.nodes, n.id);
    if 0 <= i < g.nodes.len() && g.nodes[i].id == n.id && (forall|j: int|
        0 <= j < i ==> (#[trigger] g.nodes[j]).id != n.id) {
        let at = node_index(g.nodes, n.id)->0;
        if at < i {
            assert(g.nodes[at].id != n.id);
        }
        if i < at {
            assert(g.nodes[i].id != n.id);
        }
        merge_adds_once(g.nodes[i].source_ref_keys, key);
    }
}

/// The same holds of edges.
pub proof fn edge_owners_are_added(g: Graph, e: EdgeRow, key: Seq<char>, i: int)
    requires
        entry_like(key),
        e.relationship_name is Some,
    ensures
        0 <= i < g.edges.len() && same_edge(g.edges[i], e) && (forall|j: int|
            0 <= j < i ==> !same_edge(#[trigger] g.edges[j], e)) ==> {
            let m = edge_merged(g, e, key);
            let had = entries_opt(g.edges[i].source_ref_keys);
            &&& m == (EdgeRow { source_ref_keys: m.source_ref_keys, ..e })
            &&& entries_opt(m.source_ref_keys) == (if had.contains(key) {
                had
            } else {
                had.push(key)
            })
        },
        !has_edge(g.edges, e) ==> edge_merged(g, e, key) == e,
{
    edge_index_is_first(g.edges, e.from_id, e.to_id, e.relationship_name);
    let found = edge_index(g.edges, e.from_id, e.to_id, e.relationship_name);
    if let Some(at) = found {
        assert(same_edge(g.edges[at], e));
    }
    if 0 <= i < g.edges.len() && same_edge(g.edges[i], e) && (forall|j: int|
        0 <= j < i ==> !same_edge(#[trigger] g.edges[j], e)) {
        if found is None {
            assert(!(g.edges[i].from_id == e.from_id && g.edges[i].to_id == e.to_id
                && g.edges[i].relationship_name == e.relationship_name));
        }
        let at = found->0;
        if at < i {
            assert(!same_edge(g.edges[at], e));
        }
        if i < at {
            assert(!(g.edges[i].from_id == e.from_id && g.edges[i].to_id == e.to_id
                && g.edges[i].relationship_name == e.relationship_name));
        }
        merge_adds_once(g.edges[i].source_ref_keys, key);
    }
}

/// An edge that the forgotten data item does not own is left as it is.
pub proof fn other_edge_stays(edges: Seq<EdgeRow>, key: Seq<char>, i: int)
    requires
        0 <= i < edges.len(),
        !entries_opt(edges[i].source_ref_keys).contains(key),
    ensures
        edges.filter(edge_stays(key)).map_values(edge_released(key)).contains(edges[i]),
{
    filter_members(edges, edge_stays(key));
    assert(edges.contains(edges[i]));
    assert(edge_stays(key)(edges[i]));
    let kept = edges.filter(edge_stays(key));
    assert(kept.contains(edges[i]));
    let k = choose|k: int| 0 <= k < kept.len() && kept[k] == edges[i];
    assert(kept.map_values(edge_released(key))[k] == edges[i]);
}

/// Each column of a list gets the alias and a dot before it.
pub proof fn columns_are_qualified(first: Seq<char>, rest: Seq<char>, alias: Seq<char>)
    requires
        forall|j: int| 0 <= j < first.len() ==> !#[trigger] occurs_at(first + ", "@ + rest, ", "@, j),
    ensures
        qualified_of(first + ", "@ + rest, alias) == alias + "."@ + first + ", "@ + qualified_of(
            rest,
            alias,
        ),
        (forall|j: int| !#[trigger] occurs_at(rest, ", "@, j)) ==> qualified_of(rest, alias)
            == alias + "."@ + rest,
{
    reveal_strlit(", ");
    let pat = ", "@;
    let s = first + pat + rest;
    let n = first.len() as int;
    let f = |c: Seq<char>| alias + "."@ + c;
    assert(s.subrange(n, n + pat.len()) =~= pat);
    assert(occurs_at(s, pat, n));
    find_from_is_first(s, pat, 0);
    assert(find_of(s, pat) == Some(n)) by {
        let i = find_of(s, pat)->0;
        if i < n {
            assert(occurs_at(s, pat, i));
        }
    }
    assert(s.take(n) =~= first);
    assert(s.skip(n + pat.len()) =~= rest);
    let parts = split_str_of(rest, pat);
    assert(split_str_of(s, pat) == seq![first] + parts);
    assert(parts.len() > 0);
    assert((seq![first] + parts).map_values(f) =~= seq![f(first)] + parts.map_values(f));
    joining_prepends(f(first), parts.map_values(f), pat);
    assert(qualified_of(s, alias) == join_of((seq![first] + parts).map_values(f), pat));
    if forall|j: int| !#[trigger] occurs_at(rest, pat, j) {
        find_from_is_first(rest, pat, 0);
        assert(find_of(rest, pat) is None) by {
            if let Some(i) = find_of(rest, pat) {
                assert(occurs_at(rest, pat, i));
            }
        }
        assert(parts == seq![rest]);
        assert(parts.map_values(f) =~= seq![f(rest)]);
        assert(qualified_of(rest, alias) == join_of(seq![f(rest)], pat));
    }
}

/// Joining a list with one more text in front puts that text and a separator in
/// front.
pub proof fn joining_prepends(first: Seq<char>, parts: Seq<Seq<char>>, sep: Seq<char>)
    requires
        parts.len() > 0,
    ensures
        join_of(seq![first] + parts, sep) == first + sep + join_of(parts, sep),
    decreases parts.len(),
{
    let all = seq![first] + parts;
    assert(all.last() == parts.last());
    if parts.len() == 1 {
        assert(all.drop_last() =~= seq![first]);
        assert(join_of(seq![first], sep) == first);
    } else {
        assert(all.drop_last() =~= seq![first] + parts.drop_last());
        joining_prepends(first, parts.drop_last(), sep);
        assert(first + sep + join_of(parts.drop_last(), sep) + sep + parts.last() =~= first + sep
            + join_of(parts, sep));
    }
}

} // verus!
