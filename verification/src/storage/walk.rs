//! The K-hop walk along the edges of a graph.

use vstd::hash_map::StringHashMap;
use vstd::prelude::*;

use crate::storage::graph::{edge_views, EdgeRow, GraphEdge};
use crate::text::{has, owned, views};

verus! {

/// Whether the walk may take an edge: any where no relationships are named,
/// else those with one of the named relationships.
pub open spec fn follows(e: EdgeRow, rels: Seq<Seq<char>>) -> bool {
    rels.len() == 0 || (e.relationship_name matches Some(r) && rels.contains(r))
}

/// Whether `hops` edges, one after the other, lead from a seed to `id`.
pub open spec fn reached_at(
    edges: Seq<EdgeRow>,
    seeds: Seq<Seq<char>>,
    rels: Seq<Seq<char>>,
    id: Seq<char>,
    hops: nat,
) -> bool
    decreases hops,
{
    if hops == 0 {
        seeds.contains(id)
    } else {
        exists|i: int|
            0 <= i < edges.len() && (#[trigger] edges[i]).to_id == id && follows(edges[i], rels)
                && reached_at(edges, seeds, rels, edges[i].from_id, (hops - 1) as nat)
    }
}

/// The least number of hops, up to `max`, that lead from a seed to `id`.
pub open spec fn least_depth(
    edges: Seq<EdgeRow>,
    seeds: Seq<Seq<char>>,
    rels: Seq<Seq<char>>,
    id: Seq<char>,
    max: nat,
) -> Option<nat>
    decreases max,
{
    if max == 0 {
        if reached_at(edges, seeds, rels, id, 0) {
            Some(0)
        } else {
            None
        }
    } else {
        match least_depth(edges, seeds, rels, id, (max - 1) as nat) {
            Some(d) => Some(d),
            None => if reached_at(edges, seeds, rels, id, max) {
                Some(max)
            } else {
                None
            },
        }
    }
}

/// `least_depth` is the least: that many hops lead to `id` and no fewer do, and
/// where there is none, no number of hops up to the bound does.
pub proof fn least_depth_is_least(
    edges: Seq<EdgeRow>,
    seeds: Seq<Seq<char>>,
    rels: Seq<Seq<char>>,
    id: Seq<char>,
    max: nat,
)
    ensures
        match least_depth(edges, seeds, rels, id, max) {
            Some(d) => d <= max && reached_at(edges, seeds, rels, id, d) && forall|j: nat|
                j < d ==> !reached_at(edges, seeds, rels, id, j),
            None => forall|j: nat| j <= max ==> !reached_at(edges, seeds, rels, id, j),
        },
    decreases max,
{
    if max > 0 {
        least_depth_is_least(edges, seeds, rels, id, (max - 1) as nat);
    }
}

/// A seed is reached in no hops at all, whatever the bound.
pub proof fn seeds_are_at_depth_zero(
    edges: Seq<EdgeRow>,
    seeds: Seq<Seq<char>>,
    rels: Seq<Seq<char>>,
    id: Seq<char>,
    max: nat,
)
    requires
        seeds.contains(id),
    ensures
        least_depth(edges, seeds, rels, id, max) == Some(0nat),
    decreases max,
{
    if max > 0 {
        seeds_are_at_depth_zero(edges, seeds, rels, id, (max - 1) as nat);
    }
}

/// A larger bound keeps every depth already found.
pub proof fn depth_is_stable(
    edges: Seq<EdgeRow>,
    seeds: Seq<Seq<char>>,
    rels: Seq<Seq<char>>,
    id: Seq<char>,
    max: nat,
    more: nat,
)
    requires
        max <= more,
        least_depth(edges, seeds, rels, id, max) is Some,
    ensures
        least_depth(edges, seeds, rels, id, more) == least_depth(edges, seeds, rels, id, max),
    decreases more,
{
    if max < more {
        depth_is_stable(edges, seeds, rels, id, max, (more - 1) as nat);
    }
}

/// Some edge that may be taken leads to `id` from a node first reached in `k`
/// hops; only the first `upto` edges count.
spec fn next_to(
    edges: Seq<EdgeRow>,
    seeds: Seq<Seq<char>>,
    rels: Seq<Seq<char>>,
    id: Seq<char>,
    k: nat,
    upto: int,
) -> bool {
    exists|i: int|
        0 <= i < upto && (#[trigger] edges[i]).to_id == id && follows(edges[i], rels)
            && least_depth(edges, seeds, rels, edges[i].from_id, k) == Some(k)
}

proof fn next_level(
    edges: Seq<EdgeRow>,
    seeds: Seq<Seq<char>>,
    rels: Seq<Seq<char>>,
    id: Seq<char>,
    k: nat,
)
    requires
        least_depth(edges, seeds, rels, id, k) is None,
    ensures
        least_depth(edges, seeds, rels, id, k + 1) == (if next_to(
            edges,
            seeds,
            rels,
            id,
            k,
            edges.len() as int,
        ) {
            Some(k + 1)
        } else {
            None
        }),
{
    least_depth_is_least(edges, seeds, rels, id, k);
    if reached_at(edges, seeds, rels, id, k + 1) {
        let i = choose|i: int|
            0 <= i < edges.len() && (#[trigger] edges[i]).to_id == id && follows(edges[i], rels)
                && reached_at(edges, seeds, rels, edges[i].from_id, k);
        let from = edges[i].from_id;
        least_depth_is_least(edges, seeds, rels, from, k);
        let d = least_depth(edges, seeds, rels, from, k)->0;
        if d < k {
            assert(reached_at(edges, seeds, rels, id, d + 1));
        }
        assert(next_to(edges, seeds, rels, id, k, edges.len() as int));
    }
    if next_to(edges, seeds, rels, id, k, edges.len() as int) {
        let i = choose|i: int|
            0 <= i < edges.len() && (#[trigger] edges[i]).to_id == id && follows(edges[i], rels)
                && least_depth(edges, seeds, rels, edges[i].from_id, k) == Some(k);
        least_depth_is_least(edges, seeds, rels, edges[i].from_id, k);
        assert(reached_at(edges, seeds, rels, id, k + 1));
    }
}

/// Nothing is first reached in exactly `k` hops.
spec fn level_empty(
    edges: Seq<EdgeRow>,
    seeds: Seq<Seq<char>>,
    rels: Seq<Seq<char>>,
    k: nat,
) -> bool {
    forall|id: Seq<char>| #[trigger] least_depth(edges, seeds, rels, id, k) != Some(k)
}

proof fn empty_level_ends_walk(
    edges: Seq<EdgeRow>,
    seeds: Seq<Seq<char>>,
    rels: Seq<Seq<char>>,
    k: nat,
    max: nat,
)
    requires
        k <= max,
        level_empty(edges, seeds, rels, k),
    ensures
        forall|id: Seq<char>| #[trigger]
            least_depth(edges, seeds, rels, id, max) == least_depth(edges, seeds, rels, id, k),
    decreases max - k,
{
    if k < max {
        assert forall|id: Seq<char>| #[trigger]
            least_depth(edges, seeds, rels, id, k + 1) == least_depth(edges, seeds, rels, id, k) by {
            if least_depth(edges, seeds, rels, id, k) is None {
                next_level(edges, seeds, rels, id, k);
            }
        }
        assert(level_empty(edges, seeds, rels, k + 1)) by {
            assert forall|id: Seq<char>| #[trigger]
                least_depth(edges, seeds, rels, id, k + 1) != Some(k + 1) by {
                least_depth_is_least(edges, seeds, rels, id, k);
            }
        }
        empty_level_ends_walk(edges, seeds, rels, k + 1, max);
        assert forall|id: Seq<char>| #[trigger]
            least_depth(edges, seeds, rels, id, max) == least_depth(edges, seeds, rels, id, k) by {
            assert(least_depth(edges, seeds, rels, id, k + 1) == least_depth(
                edges,
                seeds,
                rels,
                id,
                k,
            ));
        }
    }
}

/// The map holds exactly the depths found with the bound `k`.
pub open spec fn found_upto(
    found: Map<Seq<char>, u32>,
    edges: Seq<EdgeRow>,
    seeds: Seq<Seq<char>>,
    rels: Seq<Seq<char>>,
    k: nat,
) -> bool {
    forall|id: Seq<char>|
        #![trigger found.contains_key(id)]
        match least_depth(edges, seeds, rels, id, k) {
            Some(d) => found.contains_key(id) && found[id] == d,
            None => !found.contains_key(id),
        }
}

/// The map holds the depths found with the bound `k`, and `k + 1` for what the
/// first `upto` edges lead to from the nodes at depth `k`.
spec fn found_partly(
    found: Map<Seq<char>, u32>,
    edges: Seq<EdgeRow>,
    seeds: Seq<Seq<char>>,
    rels: Seq<Seq<char>>,
    k: nat,
    upto: int,
) -> bool {
    forall|id: Seq<char>| #[trigger] found_partly_at(found, edges, seeds, rels, k, upto, id)
}

spec fn found_partly_at(
    found: Map<Seq<char>, u32>,
    edges: Seq<EdgeRow>,
    seeds: Seq<Seq<char>>,
    rels: Seq<Seq<char>>,
    k: nat,
    upto: int,
    id: Seq<char>,
) -> bool {
    match least_depth(edges, seeds, rels, id, k) {
        Some(d) => found.contains_key(id) && found[id] == d,
        None => if next_to(edges, seeds, rels, id, k, upto) {
            found.contains_key(id) && found[id] == k + 1
        } else {
            !found.contains_key(id)
        },
    }
}

/// Whether the walk may take this edge.
pub fn may_follow(e: &GraphEdge, rels: &[String]) -> (r: bool)
    ensures
        r == follows(e@, views(rels@)),
{
    if rels.len() == 0 {
        return true;
    }
    match &e.relationship_name {
        Some(name) => has(rels, name.as_str()),
        None => false,
    }
}

proof fn level_is_done(
    found: Map<Seq<char>, u32>,
    edges: Seq<EdgeRow>,
    seeds: Seq<Seq<char>>,
    rels: Seq<Seq<char>>,
    k: nat,
)
    requires
        found_partly(found, edges, seeds, rels, k, edges.len() as int),
    ensures
        found_upto(found, edges, seeds, rels, k + 1),
{
    assert forall|id: Seq<char>|
        #![trigger found.contains_key(id)]
        match least_depth(edges, seeds, rels, id, k + 1) {
            Some(d) => found.contains_key(id) && found[id] == d,
            None => !found.contains_key(id),
        } by {
        assert(found_partly_at(found, edges, seeds, rels, k, edges.len() as int, id));
        if least_depth(edges, seeds, rels, id, k) is None {
            next_level(edges, seeds, rels, id, k);
        } else {
            depth_is_stable(edges, seeds, rels, id, k, k + 1);
        }
    }
}

proof fn nothing_new(
    edges: Seq<EdgeRow>,
    seeds: Seq<Seq<char>>,
    rels: Seq<Seq<char>>,
    k: nat,
)
    requires
        forall|id: Seq<char>|
            next_to(edges, seeds, rels, id, k, edges.len() as int) ==> (#[trigger] least_depth(
                edges,
                seeds,
                rels,
                id,
                k,
            )) is Some,
    ensures
        level_empty(edges, seeds, rels, k + 1),
{
    assert forall|id: Seq<char>| #[trigger]
        least_depth(edges, seeds, rels, id, k + 1) != Some(k + 1) by {
        least_depth_is_least(edges, seeds, rels, id, k);
        if least_depth(edges, seeds, rels, id, k) is None {
            next_level(edges, seeds, rels, id, k);
        } else {
            depth_is_stable(edges, seeds, rels, id, k, k + 1);
        }
    }
}

/// One more level: what the edges lead to from the nodes at depth `k`. Tells
/// whether there is anything.
fn expand(
    found: &mut StringHashMap<u32>,
    edges: &Vec<GraphEdge>,
    seeds: Ghost<Seq<Seq<char>>>,
    rels: &[String],
    k: u32,
) -> (grew: bool)
    requires
        k < u32::MAX,
        found_upto(old(found)@, edge_views(edges@), seeds@, views(rels@), k as nat),
    ensures
        found_upto(final(found)@, edge_views(edges@), seeds@, views(rels@), (k + 1) as nat),
        !grew ==> level_empty(edge_views(edges@), seeds@, views(rels@), (k + 1) as nat),
{
    let ghost all = edge_views(edges@);
    let ghost names = views(rels@);
    let ghost level = k as nat;
    let mut grew = false;
    let mut i: usize = 0;
    assert(found_partly(found@, all, seeds@, names, level, 0)) by {
        assert forall|id: Seq<char>| #[trigger]
            found_partly_at(found@, all, seeds@, names, level, 0, id) by {
            assert(found@.contains_key(id) ==> found@.dom().contains(id));
        }
    }
    while i < edges.len()
        invariant
            i <= edges@.len(),
            k < u32::MAX,
            level == k as nat,
            all == edge_views(edges@),
            names == views(rels@),
            found_partly(found@, all, seeds@, names, level, i as int),
            !grew ==> forall|id: Seq<char>|
                next_to(all, seeds@, names, id, level, i as int) ==> (#[trigger] least_depth(
                    all,
                    seeds@,
                    names,
                    id,
                    level,
                )) is Some,
        decreases edges@.len() - i,
    {
        let e = &edges[i];
        let ghost before = found@;
        let ghost from = e.from_id@;
        let ghost to = e.to_id@;
        assert(all[i as int] == e@);
        let at_level = match found.get(e.from_id.as_str()) {
            Some(d) => *d == k,
            None => false,
        };
        let take = at_level && may_follow(e, rels);
        proof {
            least_depth_is_least(all, seeds@, names, from, level);
            assert(found_partly_at(before, all, seeds@, names, level, i as int, from));
            assert(at_level == (least_depth(all, seeds@, names, from, level) == Some(level)));
            assert forall|id: Seq<char>|
                #![trigger next_to(all, seeds@, names, id, level, i + 1)]
                next_to(all, seeds@, names, id, level, i + 1) == (next_to(
                    all,
                    seeds@,
                    names,
                    id,
                    level,
                    i as int,
                ) || (take && id == to)) by {
                if next_to(all, seeds@, names, id, level, i as int) {
                    let j = choose|j: int|
                        0 <= j < i && (#[trigger] all[j]).to_id == id && follows(all[j], names)
                            && least_depth(all, seeds@, names, all[j].from_id, level) == Some(
                            level,
                        );
                    assert(all[j].to_id == id);
                }
            }
        }
        if take && !found.contains_key(e.to_id.as_str()) {
            found.insert(owned(e.to_id.as_str()), k + 1);
            grew = true;
        }
        assert(found_partly(found@, all, seeds@, names, level, i + 1)) by {
            assert forall|id: Seq<char>| #[trigger]
                found_partly_at(found@, all, seeds@, names, level, i + 1, id) by {
                assert(found_partly_at(before, all, seeds@, names, level, i as int, id));
                assert(found_partly_at(before, all, seeds@, names, level, i as int, to));
            }
        }
        i += 1;
        proof {
            if !grew {
                assert forall|id: Seq<char>|
                    next_to(all, seeds@, names, id, level, i as int) implies (
                #[trigger] least_depth(all, seeds@, names, id, level)) is Some by {
                    assert(found_partly_at(before, all, seeds@, names, level, i - 1, to));
                }
            }
        }
    }
    proof {
        level_is_done(found@, all, seeds@, names, level);
        if !grew {
            nothing_new(all, seeds@, names, level);
        }
    }
    grew
}

/// Every identifier within `max_hops` of a seed, with its least depth.
pub fn walk(
    edges: &Vec<GraphEdge>,
    seeds: &[String],
    max_hops: u32,
    rels: &[String],
) -> (r: StringHashMap<u32>)
    ensures
        found_upto(r@, edge_views(edges@), views(seeds@), views(rels@), max_hops as nat),
{
    let ghost all = edge_views(edges@);
    let ghost from = views(seeds@);
    let ghost names = views(rels@);
    let mut found: StringHashMap<u32> = StringHashMap::new();
    let mut i: usize = 0;
    while i < seeds.len()
        invariant
            i <= seeds@.len(),
            from == views(seeds@),
            forall|id: Seq<char>|
                #![trigger found@.contains_key(id)]
                (found@.contains_key(id) <==> from.take(i as int).contains(id)) && (
                found@.contains_key(id) ==> found@[id] == 0),
        decreases seeds@.len() - i,
    {
        let ghost before = found@;
        found.insert(owned(seeds[i].as_str()), 0);
        assert forall|id: Seq<char>|
            #![trigger found@.contains_key(id)]
            (found@.contains_key(id) <==> from.take(i + 1).contains(id)) && (found@.contains_key(id)
                ==> found@[id] == 0) by {
            assert(from.take(i + 1) =~= from.take(i as int).push(from[i as int]));
            let head = from.take(i as int);
            let more = from.take(i + 1);
            assert(before.contains_key(id) ==> before.dom().contains(id));
            if head.contains(id) {
                let j = choose|j: int| 0 <= j < head.len() && head[j] == id;
                assert(more[j] == id);
            }
            if id == from[i as int] {
                assert(more[i as int] == id);
            }
            if more.contains(id) {
                let j = choose|j: int| 0 <= j < more.len() && more[j] == id;
                if j < i {
                    assert(head[j] == id);
                }
            }
        }
        i += 1;
    }
    assert(from.take(from.len() as int) =~= from);
    assert(found_upto(found@, all, from, names, 0));
    let mut k: u32 = 0;
    let mut grew = true;
    while k < max_hops && grew
        invariant
            k <= max_hops,
            all == edge_views(edges@),
            from == views(seeds@),
            names == views(rels@),
            found_upto(found@, all, from, names, k as nat),
            !grew ==> level_empty(all, from, names, k as nat),
        decreases max_hops - k,
    {
        grew = expand(&mut found, edges, Ghost(from), rels, k);
        k += 1;
    }
    proof {
        if k < max_hops {
            empty_level_ends_walk(all, from, names, k as nat, max_hops as nat);
        }
    }
    found
}

} // verus!
