//! Where a walk along the edges leads.

use vstd::prelude::*;

use crate::storage::graph::{
    reached_among, traversal_is_complete, traversal_is_sound, traverse_of, EdgeRow, Graph,
    ReachedRow,
};
use crate::storage::walk::reached_at;

verus! {

/// The edges at the positions `path`, each with one of the relationships `rels`
/// where there are any, lead one after the other from a seed to `id`.
pub open spec fn leads(
    edges: Seq<EdgeRow>,
    seeds: Seq<Seq<char>>,
    rels: Seq<Seq<char>>,
    path: Seq<int>,
    id: Seq<char>,
) -> bool {
    &&& forall|k: int|
        #![trigger path[k]]
        0 <= k < path.len() ==> {
            &&& 0 <= path[k] < edges.len()
            &&& (rels.len() > 0 ==> edges[path[k]].relationship_name is Some && rels.contains(
                edges[path[k]].relationship_name->0,
            ))
        }
    &&& forall|k: int|
        0 < k < path.len() ==> edges[#[trigger] path[k]].from_id == edges[path[k - 1]].to_id
    &&& if path.len() == 0 {
        seeds.contains(id)
    } else {
        seeds.contains(edges[path[0]].from_id) && edges[path.last()].to_id == id
    }
}

proof fn path_reaches(
    edges: Seq<EdgeRow>,
    seeds: Seq<Seq<char>>,
    rels: Seq<Seq<char>>,
    path: Seq<int>,
    id: Seq<char>,
)
    requires
        leads(edges, seeds, rels, path, id),
    ensures
        reached_at(edges, seeds, rels, id, path.len()),
    decreases path.len(),
{
    if path.len() > 0 {
        let head = path.drop_last();
        let last = path.last();
        assert(path[path.len() - 1] == last);
        assert forall|k: int| 0 <= k < head.len() implies #[trigger] head[k] == path[k] by {}
        assert(leads(edges, seeds, rels, head, edges[last].from_id));
        path_reaches(edges, seeds, rels, head, edges[last].from_id);
        assert(edges[last].to_id == id);
    }
}

proof fn reached_by_path(
    edges: Seq<EdgeRow>,
    seeds: Seq<Seq<char>>,
    rels: Seq<Seq<char>>,
    id: Seq<char>,
    hops: nat,
) -> (path: Seq<int>)
    requires
        reached_at(edges, seeds, rels, id, hops),
    ensures
        path.len() == hops,
        leads(edges, seeds, rels, path, id),
    decreases hops,
{
    if hops == 0 {
        Seq::empty()
    } else {
        let i = choose|i: int|
            0 <= i < edges.len() && (#[trigger] edges[i]).to_id == id
                && crate::storage::walk::follows(edges[i], rels) && reached_at(
                edges,
                seeds,
                rels,
                edges[i].from_id,
                (hops - 1) as nat,
            );
        let head = reached_by_path(edges, seeds, rels, edges[i].from_id, (hops - 1) as nat);
        let path = head.push(i);
        assert forall|k: int| 0 <= k < head.len() implies #[trigger] path[k] == head[k] by {}
        assert(path.last() == i);
        assert forall|k: int| 0 < k < path.len() implies edges[#[trigger] path[k]].from_id
            == edges[path[k - 1]].to_id by {
            if k == head.len() {
                assert(path[k - 1] == head.last());
            } else {
                assert(path[k] == head[k] && path[k - 1] == head[k - 1]);
            }
        }
        if head.len() > 0 {
            assert(path[0] == head[0]);
        }
        path
    }
}

/// A walk finds every node of the store that edges lead to from a seed in no
/// more hops than asked for, and gives for it the length of a shortest such way.
pub proof fn every_way_is_found(
    g: Graph,
    seeds: Seq<Seq<char>>,
    max_hops: nat,
    rels: Seq<Seq<char>>,
    i: int,
    path: Seq<int>,
)
    requires
        0 <= i < g.nodes.len(),
        leads(g.edges, seeds, rels, path, g.nodes[i].id),
        path.len() <= max_hops,
    ensures
        exists|k: int|
            0 <= k < traverse_of(g, seeds, max_hops, rels).len() && {
                let r = #[trigger] traverse_of(g, seeds, max_hops, rels)[k];
                r.node == g.nodes[i] && r.depth <= path.len()
            },
{
    path_reaches(g.edges, seeds, rels, path, g.nodes[i].id);
    traversal_is_complete(g.nodes, g.edges, seeds, max_hops, rels);
    traversal_is_sound(g.nodes, g.edges, seeds, max_hops, rels);
    let reached = traverse_of(g, seeds, max_hops, rels);
    assert(reached_at(g.edges, seeds, rels, g.nodes[i].id, path.len()));
    let k = choose|k: int| 0 <= k < reached.len() && (#[trigger] reached[k]).node == g.nodes[i];
    assert(reached[k] == reached_among(g.nodes, g.edges, seeds, max_hops, rels)[k]);
}

/// What a walk finds is in the store, and edges do lead there from a seed: as
/// many as the depth given, which is no more than asked for.
pub proof fn every_find_has_a_way(
    g: Graph,
    seeds: Seq<Seq<char>>,
    max_hops: nat,
    rels: Seq<Seq<char>>,
    k: int,
) -> (path: Seq<int>)
    requires
        0 <= k < traverse_of(g, seeds, max_hops, rels).len(),
    ensures
        g.nodes.contains(traverse_of(g, seeds, max_hops, rels)[k].node),
        path.len() == traverse_of(g, seeds, max_hops, rels)[k].depth,
        path.len() <= max_hops,
        leads(g.edges, seeds, rels, path, traverse_of(g, seeds, max_hops, rels)[k].node.id),
{
    traversal_is_sound(g.nodes, g.edges, seeds, max_hops, rels);
    let r: ReachedRow = traverse_of(g, seeds, max_hops, rels)[k];
    assert(r == reached_among(g.nodes, g.edges, seeds, max_hops, rels)[k]);
    reached_by_path(g.edges, seeds, rels, r.node.id, r.depth)
}

} // verus!
