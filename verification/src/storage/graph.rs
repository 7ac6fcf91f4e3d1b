//! The property graph: nodes, directed edges between them, and metadata.
//!
//! Nodes are kept in the order in which they were last written, edges in the
//! order in which they were appended. The K-hop walk that retrieval needs is a
//! breadth-first search over the edges.

use vstd::hash_map::StringHashMap;
use vstd::prelude::*;
use vstd::string::*;

use crate::lists::{filter_ends, filter_keeps_order, filter_step};
use crate::pattern::{join, join_of, split_str, split_str_of};
use crate::storage::histogram::{count_views, histogram_of, tally};
use crate::storage::refs::{
    entries_opt, merge_ref, merged, occurrences, ref_count, split_refs, strip_ref, stripped,
    total_refs,
};
use crate::storage::walk::{
    follows, found_upto, least_depth, least_depth_is_least, may_follow, reached_at,
    seeds_are_at_depth_zero, walk,
};
use crate::text::{
    concat3, copy_opt, has, opt_str, opt_view, or_empty, owned, same, unique, unique_of, views,
};

verus! {

// ---------------------------------------------------------------------------
// Rows
// ---------------------------------------------------------------------------

/// A graph node.
#[derive(Debug, Clone, PartialEq)]
pub struct GraphNode {
    pub id: String,
    pub name: Option<String>,
    pub type_: Option<String>,
    pub created_at: Option<String>,
    pub updated_at: Option<String>,
    /// Raw JSON text, kept verbatim.
    pub properties: Option<String>,
    pub source_ref_keys: Option<String>,
    pub source_dataset_ids: Option<String>,
    pub source_run_ids: Option<String>,
    pub source_run_refs: Option<String>,
}

/// A directed edge between two [`GraphNode`]s.
#[derive(Debug, Clone, PartialEq)]
pub struct GraphEdge {
    pub from_id: String,
    pub to_id: String,
    pub relationship_name: Option<String>,
    pub created_at: Option<String>,
    pub updated_at: Option<String>,
    /// Raw JSON text, kept verbatim.
    pub properties: Option<String>,
    pub source_ref_keys: Option<String>,
    pub source_dataset_ids: Option<String>,
    pub source_run_ids: Option<String>,
    pub source_run_refs: Option<String>,
}

/// A node with the traversal depth at which it was reached.
#[derive(Debug, Clone, PartialEq)]
pub struct ReachedNode {
    pub node: GraphNode,
    pub depth: u32,
}

/// What a [`GraphNode`] holds.
pub struct NodeRow {
    pub id: Seq<char>,
    pub name: Option<Seq<char>>,
    pub type_: Option<Seq<char>>,
    pub created_at: Option<Seq<char>>,
    pub updated_at: Option<Seq<char>>,
    pub properties: Option<Seq<char>>,
    pub source_ref_keys: Option<Seq<char>>,
    pub source_dataset_ids: Option<Seq<char>>,
    pub source_run_ids: Option<Seq<char>>,
    pub source_run_refs: Option<Seq<char>>,
}

/// What a [`GraphEdge`] holds.
pub struct EdgeRow {
    pub from_id: Seq<char>,
    pub to_id: Seq<char>,
    pub relationship_name: Option<Seq<char>>,
    pub created_at: Option<Seq<char>>,
    pub updated_at: Option<Seq<char>>,
    pub properties: Option<Seq<char>>,
    pub source_ref_keys: Option<Seq<char>>,
    pub source_dataset_ids: Option<Seq<char>>,
    pub source_run_ids: Option<Seq<char>>,
    pub source_run_refs: Option<Seq<char>>,
}

impl GraphNode {
    pub open spec fn view(&self) -> NodeRow {
        NodeRow {
            id: self.id@,
            name: opt_view(self.name),
            type_: opt_view(self.type_),
            created_at: opt_view(self.created_at),
            updated_at: opt_view(self.updated_at),
            properties: opt_view(self.properties),
            source_ref_keys: opt_view(self.source_ref_keys),
            source_dataset_ids: opt_view(self.source_dataset_ids),
            source_run_ids: opt_view(self.source_run_ids),
            source_run_refs: opt_view(self.source_run_refs),
        }
    }

    /// A copy of the row.
    pub fn copy(&self) -> (r: GraphNode)
        ensures
            r@ == self@,
    {
        GraphNode {
            id: owned(self.id.as_str()),
            name: copy_opt(&self.name),
            type_: copy_opt(&self.type_),
            created_at: copy_opt(&self.created_at),
            updated_at: copy_opt(&self.updated_at),
            properties: copy_opt(&self.properties),
            source_ref_keys: copy_opt(&self.source_ref_keys),
            source_dataset_ids: copy_opt(&self.source_dataset_ids),
            source_run_ids: copy_opt(&self.source_run_ids),
            source_run_refs: copy_opt(&self.source_run_refs),
        }
    }
}

impl GraphEdge {
    pub open spec fn view(&self) -> EdgeRow {
        EdgeRow {
            from_id: self.from_id@,
            to_id: self.to_id@,
            relationship_name: opt_view(self.relationship_name),
            created_at: opt_view(self.created_at),
            updated_at: opt_view(self.updated_at),
            properties: opt_view(self.properties),
            source_ref_keys: opt_view(self.source_ref_keys),
            source_dataset_ids: opt_view(self.source_dataset_ids),
            source_run_ids: opt_view(self.source_run_ids),
            source_run_refs: opt_view(self.source_run_refs),
        }
    }

    /// A copy of the row.
    pub fn copy(&self) -> (r: GraphEdge)
        ensures
            r@ == self@,
    {
        GraphEdge {
            from_id: owned(self.from_id.as_str()),
            to_id: owned(self.to_id.as_str()),
            relationship_name: copy_opt(&self.relationship_name),
            created_at: copy_opt(&self.created_at),
            updated_at: copy_opt(&self.updated_at),
            properties: copy_opt(&self.properties),
            source_ref_keys: copy_opt(&self.source_ref_keys),
            source_dataset_ids: copy_opt(&self.source_dataset_ids),
            source_run_ids: copy_opt(&self.source_run_ids),
            source_run_refs: copy_opt(&self.source_run_refs),
        }
    }
}

pub open spec fn node_views(nodes: Seq<GraphNode>) -> Seq<NodeRow> {
    nodes.map_values(|n: GraphNode| n@)
}

pub open spec fn edge_views(edges: Seq<GraphEdge>) -> Seq<EdgeRow> {
    edges.map_values(|e: GraphEdge| e@)
}

/// The views of pairs of texts.
pub open spec fn pair_views(pairs: Seq<(String, String)>) -> Seq<(Seq<char>, Seq<char>)> {
    pairs.map_values(|p: (String, String)| (p.0@, p.1@))
}

/// The views of triples of texts.
pub open spec fn triple_views(
    triples: Seq<(String, String, String)>,
) -> Seq<(Seq<char>, Seq<char>, Seq<char>)> {
    triples.map_values(|t: (String, String, String)| (t.0@, t.1@, t.2@))
}

// ---------------------------------------------------------------------------
// The store
// ---------------------------------------------------------------------------

/// What a graph store holds.
pub struct Graph {
    pub nodes: Seq<NodeRow>,
    pub edges: Seq<EdgeRow>,
    pub metadata: Seq<(Seq<char>, Seq<char>)>,
}

/// No identifier occurs twice.
pub open spec fn distinct_ids(nodes: Seq<NodeRow>) -> bool {
    forall|i: int, j: int|
        #![trigger nodes[i], nodes[j]]
        0 <= i < j < nodes.len() ==> nodes[i].id != nodes[j].id
}

/// No metadata key occurs twice.
pub open spec fn distinct_metadata(rows: Seq<(Seq<char>, Seq<char>)>) -> bool {
    forall|i: int, j: int|
        #![trigger rows[i], rows[j]]
        0 <= i < j < rows.len() ==> rows[i].0 != rows[j].0
}

/// A property graph.
pub struct GraphStore {
    nodes: Vec<GraphNode>,
    edges: Vec<GraphEdge>,
    metadata: Vec<(String, String)>,
}

impl GraphStore {
    pub closed spec fn view(&self) -> Graph {
        Graph {
            nodes: node_views(self.nodes@),
            edges: edge_views(self.edges@),
            metadata: pair_views(self.metadata@),
        }
    }

    /// Node identifiers and metadata keys are unique.
    pub open spec fn valid(&self) -> bool {
        distinct_ids(self@.nodes) && distinct_metadata(self@.metadata)
    }
}

/// Accepts the nodes with another identifier.
pub open spec fn node_other_than(id: Seq<char>) -> spec_fn(NodeRow) -> bool {
    |n: NodeRow| n.id != id
}

/// The nodes with `row` written: at the end, in place of any with its
/// identifier.
pub open spec fn put_node(nodes: Seq<NodeRow>, row: NodeRow) -> Seq<NodeRow> {
    nodes.filter(node_other_than(row.id)).push(row)
}

/// The nodes with `rows` written one after the other.
pub open spec fn put_nodes(nodes: Seq<NodeRow>, rows: Seq<NodeRow>) -> Seq<NodeRow>
    decreases rows.len(),
{
    if rows.len() == 0 {
        nodes
    } else {
        put_node(put_nodes(nodes, rows.drop_last()), rows.last())
    }
}

/// The first node with the identifier `id`.
pub open spec fn node_index(nodes: Seq<NodeRow>, id: Seq<char>) -> Option<int>
    decreases nodes.len(),
{
    if nodes.len() == 0 {
        None
    } else {
        match node_index(nodes.drop_last(), id) {
            Some(i) => Some(i),
            None => if nodes.last().id == id {
                Some(nodes.len() - 1)
            } else {
                None
            },
        }
    }
}

/// Some node has the identifier `id`.
pub open spec fn has_node(nodes: Seq<NodeRow>, id: Seq<char>) -> bool {
    exists|i: int| 0 <= i < nodes.len() && (#[trigger] nodes[i]).id == id
}

/// `node_index` finds the first node with the identifier, if there is one.
pub proof fn node_index_is_first(nodes: Seq<NodeRow>, id: Seq<char>)
    ensures
        match node_index(nodes, id) {
            Some(i) => 0 <= i < nodes.len() && nodes[i].id == id && forall|j: int|
                0 <= j < i ==> (#[trigger] nodes[j]).id != id,
            None => forall|j: int| 0 <= j < nodes.len() ==> (#[trigger] nodes[j]).id != id,
        },
        node_index(nodes, id) is Some <==> has_node(nodes, id),
    decreases nodes.len(),
{
    if nodes.len() > 0 {
        node_index_is_first(nodes.drop_last(), id);
        assert forall|j: int| 0 <= j < nodes.len() - 1 implies nodes[j] == nodes.drop_last()[j] by {}
        if node_index(nodes, id) is None && has_node(nodes, id) {
            let j = choose|j: int| 0 <= j < nodes.len() && (#[trigger] nodes[j]).id == id;
            assert(j < nodes.len() - 1 ==> nodes.drop_last()[j].id == id);
        }
    }
}

/// Accepts the metadata rows with another key.
pub open spec fn key_other_than(key: Seq<char>) -> spec_fn((Seq<char>, Seq<char>)) -> bool {
    |row: (Seq<char>, Seq<char>)| row.0 != key
}

/// The metadata with `rows` written one after the other, each at the end and in
/// place of any with its key.
pub open spec fn put_metadata(
    held: Seq<(Seq<char>, Seq<char>)>,
    rows: Seq<(Seq<char>, Seq<char>)>,
) -> Seq<(Seq<char>, Seq<char>)>
    decreases rows.len(),
{
    if rows.len() == 0 {
        held
    } else {
        put_metadata(held, rows.drop_last()).filter(key_other_than(rows.last().0)).push(rows.last())
    }
}

/// The value of the first metadata row with the key `key`.
pub open spec fn metadata_of(
    rows: Seq<(Seq<char>, Seq<char>)>,
    key: Seq<char>,
) -> Option<Seq<char>>
    decreases rows.len(),
{
    if rows.len() == 0 {
        None
    } else {
        match metadata_of(rows.drop_last(), key) {
            Some(v) => Some(v),
            None => if rows.last().0 == key {
                Some(rows.last().1)
            } else {
                None
            },
        }
    }
}

proof fn metadata_found_stays(rows: Seq<(Seq<char>, Seq<char>)>, key: Seq<char>, i: int)
    requires
        0 <= i <= rows.len(),
        metadata_of(rows.take(i), key) is Some,
    ensures
        metadata_of(rows, key) == metadata_of(rows.take(i), key),
    decreases rows.len() - i,
{
    if i == rows.len() {
        assert(rows.take(i) =~= rows);
    } else {
        assert(rows.take(i + 1).drop_last() =~= rows.take(i));
        metadata_found_stays(rows, key, i + 1);
    }
}

/// Writing metadata keeps the keys distinct.
pub proof fn put_metadata_keeps_distinct(
    held: Seq<(Seq<char>, Seq<char>)>,
    rows: Seq<(Seq<char>, Seq<char>)>,
)
    requires
        distinct_metadata(held),
    ensures
        distinct_metadata(put_metadata(held, rows)),
    decreases rows.len(),
{
    broadcast use vstd::seq_lib::group_filter_ensures;

    if rows.len() > 0 {
        put_metadata_keeps_distinct(held, rows.drop_last());
        let before = put_metadata(held, rows.drop_last());
        let pred = key_other_than(rows.last().0);
        let kept = before.filter(pred);
        let after = put_metadata(held, rows);
        assert forall|i: int, j: int|
            #![trigger after[i], after[j]]
            0 <= i < j < after.len() implies after[i].0 != after[j].0 by {
            assert(after[i] == kept[i]);
            assert(pred(kept[i]));
            if j < kept.len() {
                assert(after[j] == kept[j]);
                filter_keeps_order(before, pred, i, j);
            }
        }
    }
}

/// What was written last under a key is what is read.
pub proof fn metadata_written_is_read(
    held: Seq<(Seq<char>, Seq<char>)>,
    rows: Seq<(Seq<char>, Seq<char>)>,
)
    requires
        rows.len() > 0,
    ensures
        metadata_of(put_metadata(held, rows), rows.last().0) == Some(rows.last().1),
{
    broadcast use vstd::seq_lib::group_filter_ensures;

    let pred = key_other_than(rows.last().0);
    let kept = put_metadata(held, rows.drop_last()).filter(pred);
    assert forall|i: int| 0 <= i < kept.len() implies (#[trigger] kept[i]).0 != rows.last().0 by {
        assert(pred(kept[i]));
    }
    absent_key_reads_nothing(kept, rows.last().0);
    assert(put_metadata(held, rows).drop_last() =~= kept);
}

proof fn absent_key_reads_nothing(rows: Seq<(Seq<char>, Seq<char>)>, key: Seq<char>)
    requires
        forall|i: int| 0 <= i < rows.len() ==> (#[trigger] rows[i]).0 != key,
    ensures
        metadata_of(rows, key) is None,
    decreases rows.len(),
{
    if rows.len() > 0 {
        assert forall|i: int| 0 <= i < rows.drop_last().len() implies (
        #[trigger] rows.drop_last()[i]).0 != key by {
            assert(rows.drop_last()[i] == rows[i]);
        }
        absent_key_reads_nothing(rows.drop_last(), key);
        assert(rows[rows.len() - 1].0 != key);
    }
}

/// Leaving nodes out keeps the identifiers distinct.
pub proof fn filter_keeps_distinct(nodes: Seq<NodeRow>, pred: spec_fn(NodeRow) -> bool)
    requires
        distinct_ids(nodes),
    ensures
        distinct_ids(nodes.filter(pred)),
{
    let kept = nodes.filter(pred);
    assert forall|i: int, j: int|
        #![trigger kept[i], kept[j]]
        0 <= i < j < kept.len() implies kept[i].id != kept[j].id by {
        filter_keeps_order(nodes, pred, i, j);
    }
}

/// Writing a node keeps the identifiers distinct.
pub proof fn put_node_keeps_distinct(nodes: Seq<NodeRow>, row: NodeRow)
    requires
        distinct_ids(nodes),
    ensures
        distinct_ids(put_node(nodes, row)),
{
    broadcast use vstd::seq_lib::group_filter_ensures;

    let pred = node_other_than(row.id);
    filter_keeps_distinct(nodes, pred);
    let kept = nodes.filter(pred);
    let after = put_node(nodes, row);
    assert forall|i: int, j: int|
        #![trigger after[i], after[j]]
        0 <= i < j < after.len() implies after[i].id != after[j].id by {
        assert(after[i] == kept[i]);
        assert(pred(kept[i]));
        if j < kept.len() {
            assert(after[j] == kept[j]);
        }
    }
}

/// Writing nodes keeps the identifiers distinct.
pub proof fn put_nodes_keeps_distinct(nodes: Seq<NodeRow>, rows: Seq<NodeRow>)
    requires
        distinct_ids(nodes),
    ensures
        distinct_ids(put_nodes(nodes, rows)),
    decreases rows.len(),
{
    if rows.len() > 0 {
        put_nodes_keeps_distinct(nodes, rows.drop_last());
        put_node_keeps_distinct(put_nodes(nodes, rows.drop_last()), rows.last());
    }
}

/// Leaving out an identifier that is not there leaves everything.
pub proof fn filter_of_absent(nodes: Seq<NodeRow>, id: Seq<char>)
    requires
        !has_node(nodes, id),
    ensures
        nodes.filter(node_other_than(id)) == nodes,
    decreases nodes.len(),
{
    reveal(Seq::filter);
    if nodes.len() > 0 {
        let head = nodes.drop_last();
        assert(nodes[nodes.len() - 1].id != id);
        assert(!has_node(head, id)) by {
            assert forall|i: int| 0 <= i < head.len() implies (#[trigger] head[i]).id != id by {
                assert(nodes[i] == head[i]);
            }
        }
        filter_of_absent(head, id);
        assert(head.push(nodes.last()) =~= nodes);
    }
}

proof fn filter_leaves_out_one(nodes: Seq<NodeRow>, id: Seq<char>)
    requires
        distinct_ids(nodes),
    ensures
        nodes.filter(node_other_than(id)).len() >= nodes.len() - 1,
    decreases nodes.len(),
{
    reveal(Seq::filter);
    if nodes.len() > 0 {
        let head = nodes.drop_last();
        assert(distinct_ids(head)) by {
            assert forall|i: int, j: int|
                #![trigger head[i], head[j]]
                0 <= i < j < head.len() implies head[i].id != head[j].id by {
                assert(nodes[i] == head[i] && nodes[j] == head[j]);
            }
        }
        if nodes.last().id == id {
            assert(!has_node(head, id)) by {
                assert forall|i: int| 0 <= i < head.len() implies (#[trigger] head[i]).id
                    != id by {
                    assert(nodes[i] == head[i]);
                    assert(nodes[nodes.len() - 1].id == id);
                }
            }
            filter_of_absent(head, id);
        } else {
            filter_leaves_out_one(head, id);
        }
    }
}

/// Writing nodes never leaves fewer than there were.
pub proof fn put_nodes_never_shrinks(nodes: Seq<NodeRow>, rows: Seq<NodeRow>)
    requires
        distinct_ids(nodes),
    ensures
        put_nodes(nodes, rows).len() >= nodes.len(),
    decreases rows.len(),
{
    if rows.len() > 0 {
        let before = put_nodes(nodes, rows.drop_last());
        put_nodes_never_shrinks(nodes, rows.drop_last());
        put_nodes_keeps_distinct(nodes, rows.drop_last());
        filter_leaves_out_one(before, rows.last().id);
    }
}

/// The nodes with another identifier than `id`, and how many are left out.
fn without_node(nodes: Vec<GraphNode>, id: &str) -> (r: (Vec<GraphNode>, usize))
    ensures
        node_views(r.0@) == node_views(nodes@).filter(node_other_than(id@)),
        r.1 == nodes@.len() - r.0@.len(),
{
    let ghost rows = nodes@;
    let ghost all = node_views(rows);
    let ghost pred = node_other_than(id@);
    let mut out: Vec<GraphNode> = Vec::new();
    let mut gone: usize = 0;
    let n: usize = nodes.len();
    proof {
        filter_ends(all, pred);
        assert(node_views(out@) =~= Seq::<NodeRow>::empty());
    }
    for row in it: nodes
        invariant
            it.seq() == rows,
            all == node_views(rows),
            pred == node_other_than(id@),
            n == rows.len(),
            gone <= it.index(),
            out@.len() + gone == it.index(),
            node_views(out@) == all.take(it.index() as int).filter(pred),
    {
        let ghost before = node_views(out@);
        proof {
            filter_step(all, it.index() as int, pred);
        }
        if same(row.id.as_str(), id) {
            gone += 1;
        } else {
            out.push(row);
            assert(node_views(out@) =~= before.push(row@));
        }
    }
    proof {
        filter_ends(all, pred);
    }
    (out, gone)
}

/// The metadata rows with another key than `key`.
fn without_key(rows: Vec<(String, String)>, key: &str) -> (r: Vec<(String, String)>)
    ensures
        pair_views(r@) == pair_views(rows@).filter(key_other_than(key@)),
{
    let ghost given = rows@;
    let ghost all = pair_views(given);
    let ghost pred = key_other_than(key@);
    let mut out: Vec<(String, String)> = Vec::new();
    proof {
        filter_ends(all, pred);
        assert(pair_views(out@) =~= Seq::<(Seq<char>, Seq<char>)>::empty());
    }
    for row in it: rows
        invariant
            it.seq() == given,
            all == pair_views(given),
            pred == key_other_than(key@),
            pair_views(out@) == all.take(it.index() as int).filter(pred),
    {
        let ghost before = pair_views(out@);
        proof {
            filter_step(all, it.index() as int, pred);
        }
        if !same(row.0.as_str(), key) {
            out.push(row);
            assert(pair_views(out@) =~= before.push((row.0@, row.1@)));
        }
    }
    proof {
        filter_ends(all, pred);
    }
    out
}

impl GraphStore {
    /// An empty graph.
    pub fn open_in_memory() -> (r: GraphStore)
        ensures
            r@ == (Graph { nodes: Seq::empty(), edges: Seq::empty(), metadata: Seq::empty() }),
            r.valid(),
    {
        let r = GraphStore { nodes: Vec::new(), edges: Vec::new(), metadata: Vec::new() };
        assert(r@.nodes =~= Seq::empty());
        assert(r@.edges =~= Seq::empty());
        assert(r@.metadata =~= Seq::empty());
        r
    }

    /// Writes nodes, replacing those with the same identifier; gives how many
    /// were given.
    pub fn insert_nodes(&mut self, nodes: &[GraphNode]) -> (r: usize)
        ensures
            final(self)@ == (Graph {
                nodes: put_nodes(old(self)@.nodes, node_views(nodes@)),
                ..old(self)@
            }),
            r == nodes@.len(),
            old(self).valid() ==> final(self).valid(),
    {
        let ghost start = self@;
        let ghost rows = node_views(nodes@);
        let mut i: usize = 0;
        assert(rows.take(0) =~= Seq::empty());
        while i < nodes.len()
            invariant
                i <= nodes@.len(),
                rows == node_views(nodes@),
                self@ == (Graph { nodes: put_nodes(start.nodes, rows.take(i as int)), ..start }),
            decreases nodes@.len() - i,
        {
            let ghost before = self@;
            let mut held: Vec<GraphNode> = Vec::new();
            std::mem::swap(&mut held, &mut self.nodes);
            let (mut kept, _) = without_node(held, nodes[i].id.as_str());
            let ghost left = node_views(kept@);
            kept.push(nodes[i].copy());
            assert(node_views(kept@) =~= left.push(rows[i as int]));
            self.nodes = kept;
            assert(rows.take(i + 1).drop_last() =~= rows.take(i as int));
            i += 1;
        }
        assert(rows.take(rows.len() as int) =~= rows);
        proof {
            if distinct_ids(start.nodes) {
                put_nodes_keeps_distinct(start.nodes, rows);
            }
        }
        nodes.len()
    }

    /// Appends edges; gives how many were given.
    pub fn insert_edges(&mut self, edges: &[GraphEdge]) -> (r: usize)
        ensures
            final(self)@ == (Graph {
                edges: old(self)@.edges + edge_views(edges@),
                ..old(self)@
            }),
            r == edges@.len(),
            old(self).valid() ==> final(self).valid(),
    {
        let ghost start = self@;
        let ghost rows = edge_views(edges@);
        let mut i: usize = 0;
        assert(start.edges + rows.take(0) =~= start.edges);
        while i < edges.len()
            invariant
                i <= edges@.len(),
                rows == edge_views(edges@),
                self@ == (Graph { edges: start.edges + rows.take(i as int), ..start }),
            decreases edges@.len() - i,
        {
            let ghost before = self@.edges;
            self.edges.push(edges[i].copy());
            assert(self@.edges =~= before.push(rows[i as int]));
            assert(before.push(rows[i as int]) =~= start.edges + rows.take(i + 1));
            i += 1;
        }
        assert(rows.take(rows.len() as int) =~= rows);
        edges.len()
    }

    /// Writes `(key, value)` metadata rows, replacing those with the same key.
    pub fn insert_metadata(&mut self, rows: &[(String, String)]) -> (r: usize)
        ensures
            final(self)@ == (Graph {
                metadata: put_metadata(old(self)@.metadata, pair_views(rows@)),
                ..old(self)@
            }),
            r == rows@.len(),
            old(self).valid() ==> final(self).valid(),
    {
        let ghost start = self@;
        let ghost given = pair_views(rows@);
        let mut i: usize = 0;
        assert(given.take(0) =~= Seq::empty());
        while i < rows.len()
            invariant
                i <= rows@.len(),
                given == pair_views(rows@),
                self@ == (Graph { metadata: put_metadata(start.metadata, given.take(i as int)), ..start }),
            decreases rows@.len() - i,
        {
            let mut held: Vec<(String, String)> = Vec::new();
            std::mem::swap(&mut held, &mut self.metadata);
            let mut kept = without_key(held, rows[i].0.as_str());
            let ghost left = pair_views(kept@);
            kept.push((owned(rows[i].0.as_str()), owned(rows[i].1.as_str())));
            assert(pair_views(kept@) =~= left.push(given[i as int]));
            self.metadata = kept;
            assert(given.take(i + 1).drop_last() =~= given.take(i as int));
            i += 1;
        }
        assert(given.take(given.len() as int) =~= given);
        proof {
            if distinct_metadata(start.metadata) {
                put_metadata_keeps_distinct(start.metadata, given);
            }
        }
        rows.len()
    }

    /// How many nodes there are.
    pub fn node_count(&self) -> (r: usize)
        ensures
            r == self@.nodes.len(),
    {
        self.nodes.len()
    }

    /// How many edges there are.
    pub fn edge_count(&self) -> (r: usize)
        ensures
            r == self@.edges.len(),
    {
        self.edges.len()
    }

    /// The metadata value under `key`.
    pub fn metadata(&self, key: &str) -> (r: Option<String>)
        ensures
            opt_view(r) == metadata_of(self@.metadata, key@),
    {
        let ghost rows = self@.metadata;
        let mut i: usize = 0;
        while i < self.metadata.len()
            invariant
                i <= self.metadata@.len(),
                rows == pair_views(self.metadata@),
                metadata_of(rows.take(i as int), key@) is None,
            decreases self.metadata@.len() - i,
        {
            assert(rows.take(i + 1).drop_last() =~= rows.take(i as int));
            if same(self.metadata[i].0.as_str(), key) {
                proof {
                    metadata_found_stays(rows, key@, i + 1);
                }
                return Some(owned(self.metadata[i].1.as_str()));
            }
            i += 1;
        }
        assert(rows.take(rows.len() as int) =~= rows);
        None
    }

    /// The position of the first node with the identifier `id`.
    fn find_node(&self, id: &str) -> (r: Option<usize>)
        ensures
            match r {
                Some(i) => i < self.nodes@.len() && node_index(self@.nodes, id@) == Some(i as int),
                None => node_index(self@.nodes, id@) is None,
            },
    {
        let ghost rows = self@.nodes;
        let mut i: usize = 0;
        while i < self.nodes.len()
            invariant
                i <= self.nodes@.len(),
                rows == node_views(self.nodes@),
                forall|j: int| 0 <= j < i ==> (#[trigger] rows[j]).id != id@,
            decreases self.nodes@.len() - i,
        {
            assert(rows[i as int].id == self.nodes@[i as int].id@);
            if same(self.nodes[i].id.as_str(), id) {
                proof {
                    node_index_is_first(rows, id@);
                }
                return Some(i);
            }
            i += 1;
        }
        proof {
            node_index_is_first(rows, id@);
        }
        None
    }

    /// The node with the identifier `id`.
    pub fn node_by_id(&self, id: &str) -> (r: Option<GraphNode>)
        ensures
            match r {
                Some(n) => node_index(self@.nodes, id@) matches Some(i) && n@ == self@.nodes[i],
                None => node_index(self@.nodes, id@) is None,
            },
    {
        match self.find_node(id) {
            Some(i) => Some(self.nodes[i].copy()),
            None => None,
        }
    }
}

// ---------------------------------------------------------------------------
// Queries
// ---------------------------------------------------------------------------

/// Accepts the nodes of a type.
pub open spec fn node_of_type(type_: Seq<char>) -> spec_fn(NodeRow) -> bool {
    |n: NodeRow| n.type_ == Some(type_)
}

/// Accepts the edges out of a node.
pub open spec fn edge_out_of(id: Seq<char>) -> spec_fn(EdgeRow) -> bool {
    |e: EdgeRow| e.from_id == id
}

/// Accepts the edges between two of the given nodes.
pub open spec fn edge_among(ids: Seq<Seq<char>>) -> spec_fn(EdgeRow) -> bool {
    |e: EdgeRow| ids.contains(e.from_id) && ids.contains(e.to_id)
}

/// Accepts the nodes that carry the provenance entry `key`.
pub open spec fn node_from(key: Seq<char>) -> spec_fn(NodeRow) -> bool {
    |n: NodeRow| entries_opt(n.source_ref_keys).contains(key)
}

/// Accepts the edges that carry the provenance entry `key`.
pub open spec fn edge_from(key: Seq<char>) -> spec_fn(EdgeRow) -> bool {
    |e: EdgeRow| entries_opt(e.source_ref_keys).contains(key)
}

/// Accepts the edges one of whose endpoints is not in the store.
pub open spec fn edge_dangling(nodes: Seq<NodeRow>) -> spec_fn(EdgeRow) -> bool {
    |e: EdgeRow| !has_node(nodes, e.from_id) || !has_node(nodes, e.to_id)
}

/// The name of an edge's relationship, empty where it has none.
pub open spec fn rel_or_empty(e: EdgeRow) -> Seq<char> {
    match e.relationship_name {
        Some(r) => r,
        None => Seq::empty(),
    }
}

/// The type of a node, empty where it has none.
pub open spec fn type_or_empty(n: NodeRow) -> Seq<char> {
    match n.type_ {
        Some(t) => t,
        None => Seq::empty(),
    }
}

/// What an edge is known by: its endpoints and its relationship.
pub open spec fn edge_key(e: EdgeRow) -> (Seq<char>, Seq<char>, Seq<char>) {
    (e.from_id, e.to_id, rel_or_empty(e))
}

/// Whether an optional text is there and equal to `s`.
fn is_text(o: &Option<String>, s: &str) -> (r: bool)
    ensures
        r == (opt_view(*o) == Some(s@)),
{
    match o {
        Some(t) => same(t.as_str(), s),
        None => false,
    }
}

/// Whether a provenance list has an entry.
fn carries(o: &Option<String>, key: &str) -> (r: bool)
    ensures
        r == entries_opt(opt_view(*o)).contains(key@),
{
    match o {
        Some(raw) => has(&split_refs(raw.as_str()), key),
        None => false,
    }
}

/// The identifiers of the nodes, as a set.
fn id_set(nodes: &Vec<GraphNode>) -> (r: StringHashMap<bool>)
    ensures
        forall|id: Seq<char>| #[trigger] r@.contains_key(id) <==> has_node(node_views(nodes@), id),
{
    let ghost rows = node_views(nodes@);
    let mut ids: StringHashMap<bool> = StringHashMap::new();
    let mut i: usize = 0;
    while i < nodes.len()
        invariant
            i <= nodes@.len(),
            rows == node_views(nodes@),
            forall|id: Seq<char>| #[trigger]
                ids@.contains_key(id) <==> exists|j: int|
                    0 <= j < i && (#[trigger] rows[j]).id == id,
        decreases nodes@.len() - i,
    {
        let ghost before = ids@;
        ids.insert(owned(nodes[i].id.as_str()), true);
        assert forall|id: Seq<char>| #[trigger] ids@.contains_key(id) <==> exists|j: int|
            0 <= j < i + 1 && (#[trigger] rows[j]).id == id by {
            if ids@.contains_key(id) {
                if id == nodes@[i as int].id@ {
                    assert(rows[i as int].id == id);
                } else {
                    assert(before.contains_key(id));
                }
            }
            if exists|j: int| 0 <= j < i + 1 && (#[trigger] rows[j]).id == id {
                let j = choose|j: int| 0 <= j < i + 1 && (#[trigger] rows[j]).id == id;
                if j < i {
                    assert(before.contains_key(id));
                }
            }
        }
        i += 1;
    }
    ids
}

impl GraphStore {
    /// All nodes of a type.
    pub fn nodes_by_type(&self, type_: &str) -> (r: Vec<GraphNode>)
        ensures
            node_views(r@) == self@.nodes.filter(node_of_type(type_@)),
    {
        let ghost all = self@.nodes;
        let ghost pred = node_of_type(type_@);
        let mut out: Vec<GraphNode> = Vec::new();
        let mut i: usize = 0;
        proof {
            filter_ends(all, pred);
            assert(node_views(out@) =~= Seq::<NodeRow>::empty());
        }
        while i < self.nodes.len()
            invariant
                i <= self.nodes@.len(),
                all == node_views(self.nodes@),
                pred == node_of_type(type_@),
                node_views(out@) == all.take(i as int).filter(pred),
            decreases self.nodes@.len() - i,
        {
            let ghost before = node_views(out@);
            proof {
                filter_step(all, i as int, pred);
            }
            if is_text(&self.nodes[i].type_, type_) {
                out.push(self.nodes[i].copy());
                assert(node_views(out@) =~= before.push(all[i as int]));
            }
            i += 1;
        }
        out
    }

    /// Every node.
    pub fn all_nodes(&self) -> (r: Vec<GraphNode>)
        ensures
            node_views(r@) == self@.nodes,
    {
        let mut out: Vec<GraphNode> = Vec::new();
        let mut i: usize = 0;
        while i < self.nodes.len()
            invariant
                i <= self.nodes@.len(),
                out@.len() == i,
                forall|j: int| 0 <= j < i ==> (#[trigger] out@[j])@ == self.nodes@[j]@,
            decreases self.nodes@.len() - i,
        {
            out.push(self.nodes[i].copy());
            i += 1;
        }
        assert(node_views(out@) =~= self@.nodes);
        out
    }

    /// Every edge.
    pub fn all_edges(&self) -> (r: Vec<GraphEdge>)
        ensures
            edge_views(r@) == self@.edges,
    {
        let mut out: Vec<GraphEdge> = Vec::new();
        let mut i: usize = 0;
        while i < self.edges.len()
            invariant
                i <= self.edges@.len(),
                out@.len() == i,
                forall|j: int| 0 <= j < i ==> (#[trigger] out@[j])@ == self.edges@[j]@,
            decreases self.edges@.len() - i,
        {
            out.push(self.edges[i].copy());
            i += 1;
        }
        assert(edge_views(out@) =~= self@.edges);
        out
    }

    /// Every metadata row.
    pub fn all_metadata(&self) -> (r: Vec<(String, String)>)
        ensures
            pair_views(r@) == self@.metadata,
    {
        let mut out: Vec<(String, String)> = Vec::new();
        let mut i: usize = 0;
        while i < self.metadata.len()
            invariant
                i <= self.metadata@.len(),
                out@.len() == i,
                forall|j: int|
                    0 <= j < i ==> (#[trigger] out@[j]).0@ == self.metadata@[j].0@ && out@[j].1@
                        == self.metadata@[j].1@,
            decreases self.metadata@.len() - i,
        {
            out.push((owned(self.metadata[i].0.as_str()), owned(self.metadata[i].1.as_str())));
            i += 1;
        }
        assert(pair_views(out@) =~= self@.metadata);
        out
    }

    /// The identifier of every node.
    pub fn all_node_ids(&self) -> (r: Vec<String>)
        ensures
            views(r@) == self@.nodes.map_values(|n: NodeRow| n.id),
    {
        let mut out: Vec<String> = Vec::new();
        let mut i: usize = 0;
        while i < self.nodes.len()
            invariant
                i <= self.nodes@.len(),
                out@.len() == i,
                forall|j: int| 0 <= j < i ==> (#[trigger] out@[j])@ == self.nodes@[j].id@,
            decreases self.nodes@.len() - i,
        {
            out.push(owned(self.nodes[i].id.as_str()));
            i += 1;
        }
        assert(views(out@) =~= self@.nodes.map_values(|n: NodeRow| n.id));
        out
    }

    /// The edges out of a node.
    pub fn edges_from(&self, id: &str) -> (r: Vec<GraphEdge>)
        ensures
            edge_views(r@) == self@.edges.filter(edge_out_of(id@)),
    {
        let ghost all = self@.edges;
        let ghost pred = edge_out_of(id@);
        let mut out: Vec<GraphEdge> = Vec::new();
        let mut i: usize = 0;
        proof {
            filter_ends(all, pred);
            assert(edge_views(out@) =~= Seq::<EdgeRow>::empty());
        }
        while i < self.edges.len()
            invariant
                i <= self.edges@.len(),
                all == edge_views(self.edges@),
                pred == edge_out_of(id@),
                edge_views(out@) == all.take(i as int).filter(pred),
            decreases self.edges@.len() - i,
        {
            let ghost before = edge_views(out@);
            proof {
                filter_step(all, i as int, pred);
            }
            if same(self.edges[i].from_id.as_str(), id) {
                out.push(self.edges[i].copy());
                assert(edge_views(out@) =~= before.push(all[i as int]));
            }
            i += 1;
        }
        out
    }

    /// The edges both of whose endpoints are among `ids`.
    pub fn edges_within(&self, ids: &[String]) -> (r: Vec<GraphEdge>)
        ensures
            edge_views(r@) == self@.edges.filter(edge_among(views(ids@))),
    {
        let ghost all = self@.edges;
        let ghost pred = edge_among(views(ids@));
        let mut out: Vec<GraphEdge> = Vec::new();
        let mut i: usize = 0;
        proof {
            filter_ends(all, pred);
            assert(edge_views(out@) =~= Seq::<EdgeRow>::empty());
        }
        while i < self.edges.len()
            invariant
                i <= self.edges@.len(),
                all == edge_views(self.edges@),
                pred == edge_among(views(ids@)),
                edge_views(out@) == all.take(i as int).filter(pred),
            decreases self.edges@.len() - i,
        {
            let ghost before = edge_views(out@);
            proof {
                filter_step(all, i as int, pred);
            }
            if has(ids, self.edges[i].from_id.as_str()) && has(ids, self.edges[i].to_id.as_str()) {
                out.push(self.edges[i].copy());
                assert(edge_views(out@) =~= before.push(all[i as int]));
            }
            i += 1;
        }
        out
    }

    /// The endpoints and relationship of each edge with an endpoint that is not
    /// in the store.
    pub fn edges_with_missing_endpoint(&self) -> (r: Vec<(String, String, String)>)
        ensures
            triple_views(r@) == self@.edges.filter(edge_dangling(self@.nodes)).map_values(
                |e: EdgeRow| edge_key(e),
            ),
    {
        let ids = id_set(&self.nodes);
        let ghost all = self@.edges;
        let ghost nodes = self@.nodes;
        let ghost pred = edge_dangling(nodes);
        let mut out: Vec<(String, String, String)> = Vec::new();
        let mut i: usize = 0;
        proof {
            filter_ends(all, pred);
            assert(triple_views(out@) =~= Seq::<EdgeRow>::empty().map_values(
                |e: EdgeRow| edge_key(e),
            ));
        }
        while i < self.edges.len()
            invariant
                i <= self.edges@.len(),
                all == edge_views(self.edges@),
                nodes == node_views(self.nodes@),
                pred == edge_dangling(nodes),
                forall|id: Seq<char>| #[trigger] ids@.contains_key(id) <==> has_node(nodes, id),
                triple_views(out@) == all.take(i as int).filter(pred).map_values(
                    |e: EdgeRow| edge_key(e),
                ),
            decreases self.edges@.len() - i,
        {
            let ghost before = triple_views(out@);
            let ghost kept = all.take(i as int).filter(pred);
            proof {
                filter_step(all, i as int, pred);
            }
            let e = &self.edges[i];
            if !ids.contains_key(e.from_id.as_str()) || !ids.contains_key(e.to_id.as_str()) {
                out.push(
                    (
                        owned(e.from_id.as_str()),
                        owned(e.to_id.as_str()),
                        or_empty(&e.relationship_name),
                    ),
                );
                assert(triple_views(out@) =~= before.push(edge_key(all[i as int])));
                assert(kept.push(all[i as int]).map_values(|e: EdgeRow| edge_key(e)) =~= before.push(
                    edge_key(all[i as int]),
                ));
            }
            i += 1;
        }
        out
    }

    /// All nodes carrying a provenance entry.
    pub fn nodes_with_source_ref(&self, ref_key: &str) -> (r: Vec<GraphNode>)
        ensures
            node_views(r@) == self@.nodes.filter(node_from(ref_key@)),
    {
        let ghost all = self@.nodes;
        let ghost pred = node_from(ref_key@);
        let mut out: Vec<GraphNode> = Vec::new();
        let mut i: usize = 0;
        proof {
            filter_ends(all, pred);
            assert(node_views(out@) =~= Seq::<NodeRow>::empty());
        }
        while i < self.nodes.len()
            invariant
                i <= self.nodes@.len(),
                all == node_views(self.nodes@),
                pred == node_from(ref_key@),
                node_views(out@) == all.take(i as int).filter(pred),
            decreases self.nodes@.len() - i,
        {
            let ghost before = node_views(out@);
            proof {
                filter_step(all, i as int, pred);
            }
            if carries(&self.nodes[i].source_ref_keys, ref_key) {
                out.push(self.nodes[i].copy());
                assert(node_views(out@) =~= before.push(all[i as int]));
            }
            i += 1;
        }
        out
    }

    /// All edges carrying a provenance entry.
    pub fn edges_with_source_ref(&self, ref_key: &str) -> (r: Vec<GraphEdge>)
        ensures
            edge_views(r@) == self@.edges.filter(edge_from(ref_key@)),
    {
        let ghost all = self@.edges;
        let ghost pred = edge_from(ref_key@);
        let mut out: Vec<GraphEdge> = Vec::new();
        let mut i: usize = 0;
        proof {
            filter_ends(all, pred);
            assert(edge_views(out@) =~= Seq::<EdgeRow>::empty());
        }
        while i < self.edges.len()
            invariant
                i <= self.edges@.len(),
                all == edge_views(self.edges@),
                pred == edge_from(ref_key@),
                edge_views(out@) == all.take(i as int).filter(pred),
            decreases self.edges@.len() - i,
        {
            let ghost before = edge_views(out@);
            proof {
                filter_step(all, i as int, pred);
            }
            if carries(&self.edges[i].source_ref_keys, ref_key) {
                out.push(self.edges[i].copy());
                assert(edge_views(out@) =~= before.push(all[i as int]));
            }
            i += 1;
        }
        out
    }
}

// ---------------------------------------------------------------------------
// Histograms and names
// ---------------------------------------------------------------------------

/// The type of each node, empty where it has none.
pub open spec fn type_names(nodes: Seq<NodeRow>) -> Seq<Seq<char>> {
    nodes.map_values(|n: NodeRow| type_or_empty(n))
}

/// The relationship of each edge, empty where it has none.
pub open spec fn rel_names(edges: Seq<EdgeRow>) -> Seq<Seq<char>> {
    edges.map_values(|e: EdgeRow| rel_or_empty(e))
}

impl GraphStore {
    /// Node type histogram, descending by count.
    pub fn node_type_counts(&self) -> (r: Vec<(String, usize)>)
        ensures
            histogram_of(type_names(self@.nodes), count_views(r@)),
    {
        let mut names: Vec<String> = Vec::new();
        let mut i: usize = 0;
        while i < self.nodes.len()
            invariant
                i <= self.nodes@.len(),
                names@.len() == i,
                forall|j: int|
                    0 <= j < i ==> (#[trigger] names@[j])@ == type_or_empty(self.nodes@[j]@),
            decreases self.nodes@.len() - i,
        {
            names.push(or_empty(&self.nodes[i].type_));
            i += 1;
        }
        assert(views(names@) =~= type_names(self@.nodes));
        tally(&names)
    }

    /// The relationship of each edge, empty where it has none.
    fn relationship_names(&self) -> (r: Vec<String>)
        ensures
            views(r@) == rel_names(self@.edges),
    {
        let mut names: Vec<String> = Vec::new();
        let mut i: usize = 0;
        while i < self.edges.len()
            invariant
                i <= self.edges@.len(),
                names@.len() == i,
                forall|j: int|
                    0 <= j < i ==> (#[trigger] names@[j])@ == rel_or_empty(self.edges@[j]@),
            decreases self.edges@.len() - i,
        {
            names.push(or_empty(&self.edges[i].relationship_name));
            i += 1;
        }
        assert(views(names@) =~= rel_names(self@.edges));
        names
    }

    /// Relationship histogram, descending by count.
    pub fn relationship_counts(&self) -> (r: Vec<(String, usize)>)
        ensures
            histogram_of(rel_names(self@.edges), count_views(r@)),
    {
        let names = self.relationship_names();
        tally(&names)
    }

    /// Distinct relationship names still present on any edge.
    pub fn surviving_relationship_names(&self) -> (r: Vec<String>)
        ensures
            views(r@) == unique_of(rel_names(self@.edges)),
    {
        let names = self.relationship_names();
        unique(&names)
    }
}

// ---------------------------------------------------------------------------
// Deleting
// ---------------------------------------------------------------------------

/// Accepts the nodes whose identifier is not among `ids`.
pub open spec fn node_not_among(ids: Seq<Seq<char>>) -> spec_fn(NodeRow) -> bool {
    |n: NodeRow| !ids.contains(n.id)
}

/// Accepts the edges whose endpoints are not among `keys`.
pub open spec fn edge_not_between(keys: Seq<(Seq<char>, Seq<char>)>) -> spec_fn(EdgeRow) -> bool {
    |e: EdgeRow| !keys.contains((e.from_id, e.to_id))
}

/// Accepts the edges without a relationship, and those whose endpoints and
/// relationship are not among `keys`.
pub open spec fn edge_not_among(
    keys: Seq<(Seq<char>, Seq<char>, Seq<char>)>,
) -> spec_fn(EdgeRow) -> bool {
    |e: EdgeRow|
        match e.relationship_name {
            Some(rel) => !keys.contains((e.from_id, e.to_id, rel)),
            None => true,
        }
}

/// Whether `(from, to)` is one of the pairs.
fn has_pair(keys: &[(String, String)], from: &str, to: &str) -> (r: bool)
    ensures
        r == pair_views(keys@).contains((from@, to@)),
{
    let ghost all = pair_views(keys@);
    let mut i: usize = 0;
    while i < keys.len()
        invariant
            i <= keys@.len(),
            all == pair_views(keys@),
            forall|j: int| 0 <= j < i ==> #[trigger] all[j] != (from@, to@),
        decreases keys@.len() - i,
    {
        if same(keys[i].0.as_str(), from) && same(keys[i].1.as_str(), to) {
            assert(all[i as int] == (from@, to@));
            return true;
        }
        i += 1;
    }
    false
}

/// Whether `(from, to, rel)` is one of the triples.
pub fn has_triple(keys: &[(String, String, String)], from: &str, to: &str, rel: &str) -> (r: bool)
    ensures
        r == triple_views(keys@).contains((from@, to@, rel@)),
{
    let ghost all = triple_views(keys@);
    let mut i: usize = 0;
    while i < keys.len()
        invariant
            i <= keys@.len(),
            all == triple_views(keys@),
            forall|j: int| 0 <= j < i ==> #[trigger] all[j] != (from@, to@, rel@),
        decreases keys@.len() - i,
    {
        if same(keys[i].0.as_str(), from) && same(keys[i].1.as_str(), to) && same(
            keys[i].2.as_str(),
            rel,
        ) {
            assert(all[i as int] == (from@, to@, rel@));
            return true;
        }
        i += 1;
    }
    false
}

impl GraphStore {
    /// Deletes the edges between each (from, to) pair, whatever their
    /// relationship; gives how many there were.
    pub fn delete_edges_by_endpoints(&mut self, keys: &[(String, String)]) -> (r: usize)
        ensures
            final(self)@ == (Graph {
                edges: old(self)@.edges.filter(edge_not_between(pair_views(keys@))),
                ..old(self)@
            }),
            r == old(self)@.edges.len() - final(self)@.edges.len(),
            old(self).valid() ==> final(self).valid(),
    {
        let ghost pred = edge_not_between(pair_views(keys@));
        let mut held: Vec<GraphEdge> = Vec::new();
        std::mem::swap(&mut held, &mut self.edges);
        let ghost rows = held@;
        let ghost all = edge_views(rows);
        let mut out: Vec<GraphEdge> = Vec::new();
        let mut gone: usize = 0;
        let n: usize = held.len();
        proof {
            filter_ends(all, pred);
            assert(edge_views(out@) =~= Seq::<EdgeRow>::empty());
        }
        for row in it: held
            invariant
                it.seq() == rows,
                all == edge_views(rows),
                pred == edge_not_between(pair_views(keys@)),
                n == rows.len(),
                gone <= it.index(),
                out@.len() + gone == it.index(),
                edge_views(out@) == all.take(it.index() as int).filter(pred),
        {
            let ghost before = edge_views(out@);
            proof {
                filter_step(all, it.index() as int, pred);
            }
            if has_pair(keys, row.from_id.as_str(), row.to_id.as_str()) {
                gone += 1;
            } else {
                out.push(row);
                assert(edge_views(out@) =~= before.push(row@));
            }
        }
        proof {
            filter_ends(all, pred);
        }
        self.edges = out;
        gone
    }

    /// Deletes the edges with the given endpoints and relationship; gives how
    /// many there were.
    pub fn delete_edges(&mut self, edge_keys: &[(String, String, String)]) -> (r: usize)
        ensures
            final(self)@ == (Graph {
                edges: old(self)@.edges.filter(edge_not_among(triple_views(edge_keys@))),
                ..old(self)@
            }),
            r == old(self)@.edges.len() - final(self)@.edges.len(),
            old(self).valid() ==> final(self).valid(),
    {
        let ghost pred = edge_not_among(triple_views(edge_keys@));
        let mut held: Vec<GraphEdge> = Vec::new();
        std::mem::swap(&mut held, &mut self.edges);
        let ghost rows = held@;
        let ghost all = edge_views(rows);
        let mut out: Vec<GraphEdge> = Vec::new();
        let mut gone: usize = 0;
        let n: usize = held.len();
        proof {
            filter_ends(all, pred);
            assert(edge_views(out@) =~= Seq::<EdgeRow>::empty());
        }
        for row in it: held
            invariant
                it.seq() == rows,
                all == edge_views(rows),
                pred == edge_not_among(triple_views(edge_keys@)),
                n == rows.len(),
                gone <= it.index(),
                out@.len() + gone == it.index(),
                edge_views(out@) == all.take(it.index() as int).filter(pred),
        {
            let ghost before = edge_views(out@);
            proof {
                filter_step(all, it.index() as int, pred);
            }
            let hit = match &row.relationship_name {
                Some(rel) => has_triple(
                    edge_keys,
                    row.from_id.as_str(),
                    row.to_id.as_str(),
                    rel.as_str(),
                ),
                None => false,
            };
            if hit {
                gone += 1;
            } else {
                out.push(row);
                assert(edge_views(out@) =~= before.push(row@));
            }
        }
        proof {
            filter_ends(all, pred);
        }
        self.edges = out;
        gone
    }

    /// Deletes nodes by identifier; gives how many there were.
    pub fn delete_nodes(&mut self, node_ids: &[String]) -> (r: usize)
        ensures
            final(self)@ == (Graph {
                nodes: old(self)@.nodes.filter(node_not_among(views(node_ids@))),
                ..old(self)@
            }),
            r == old(self)@.nodes.len() - final(self)@.nodes.len(),
            old(self).valid() ==> final(self).valid(),
    {
        let ghost pred = node_not_among(views(node_ids@));
        let mut held: Vec<GraphNode> = Vec::new();
        std::mem::swap(&mut held, &mut self.nodes);
        let ghost rows = held@;
        let ghost all = node_views(rows);
        let mut out: Vec<GraphNode> = Vec::new();
        let mut gone: usize = 0;
        let n: usize = held.len();
        proof {
            filter_ends(all, pred);
            assert(node_views(out@) =~= Seq::<NodeRow>::empty());
        }
        for row in it: held
            invariant
                it.seq() == rows,
                all == node_views(rows),
                pred == node_not_among(views(node_ids@)),
                n == rows.len(),
                gone <= it.index(),
                out@.len() + gone == it.index(),
                node_views(out@) == all.take(it.index() as int).filter(pred),
        {
            let ghost before = node_views(out@);
            proof {
                filter_step(all, it.index() as int, pred);
            }
            if has(node_ids, row.id.as_str()) {
                gone += 1;
            } else {
                out.push(row);
                assert(node_views(out@) =~= before.push(row@));
            }
        }
        proof {
            filter_ends(all, pred);
            if distinct_ids(all) {
                filter_keeps_distinct(all, pred);
            }
        }
        self.nodes = out;
        gone
    }
}

// ---------------------------------------------------------------------------
// Duplicates
// ---------------------------------------------------------------------------

/// Two edges with the same endpoints and relationship, or both without one.
pub open spec fn same_edge(a: EdgeRow, b: EdgeRow) -> bool {
    a.from_id == b.from_id && a.to_id == b.to_id && a.relationship_name == b.relationship_name
}

/// Some edge of `edges` is the same as `e`.
pub open spec fn has_edge(edges: Seq<EdgeRow>, e: EdgeRow) -> bool {
    exists|i: int| 0 <= i < edges.len() && same_edge(#[trigger] edges[i], e)
}

/// The edges without those that stand earlier already.
pub open spec fn dedup_of(edges: Seq<EdgeRow>) -> Seq<EdgeRow>
    decreases edges.len(),
{
    if edges.len() == 0 {
        edges
    } else {
        let before = dedup_of(edges.drop_last());
        if has_edge(before, edges.last()) {
            before
        } else {
            before.push(edges.last())
        }
    }
}

/// Whether two optional texts are equal.
fn same_opt(a: &Option<String>, b: &Option<String>) -> (r: bool)
    ensures
        r == (opt_view(*a) == opt_view(*b)),
{
    match (a, b) {
        (Some(x), Some(y)) => same(x.as_str(), y.as_str()),
        (None, None) => true,
        _ => false,
    }
}

/// Whether some edge of `edges` is the same as `e`.
fn contains_edge(edges: &Vec<GraphEdge>, e: &GraphEdge) -> (r: bool)
    ensures
        r == has_edge(edge_views(edges@), e@),
{
    let ghost all = edge_views(edges@);
    let mut i: usize = 0;
    while i < edges.len()
        invariant
            i <= edges@.len(),
            all == edge_views(edges@),
            forall|j: int| 0 <= j < i ==> !same_edge(#[trigger] all[j], e@),
        decreases edges@.len() - i,
    {
        if same(edges[i].from_id.as_str(), e.from_id.as_str()) && same(
            edges[i].to_id.as_str(),
            e.to_id.as_str(),
        ) && same_opt(&edges[i].relationship_name, &e.relationship_name) {
            assert(same_edge(all[i as int], e@));
            return true;
        }
        i += 1;
    }
    false
}

/// Leaving duplicates out leaves each edge there was, once.
pub proof fn dedup_keeps_each_once(edges: Seq<EdgeRow>)
    ensures
        forall|i: int, j: int|
            #![trigger dedup_of(edges)[i], dedup_of(edges)[j]]
            0 <= i < j < dedup_of(edges).len() ==> !same_edge(dedup_of(edges)[i], dedup_of(edges)[j]),
        forall|e: EdgeRow| #[trigger] has_edge(dedup_of(edges), e) <==> has_edge(edges, e),
    decreases edges.len(),
{
    if edges.len() > 0 {
        let head = edges.drop_last();
        dedup_keeps_each_once(head);
        let before = dedup_of(head);
        let after = dedup_of(edges);
        let last = edges.last();
        assert(last == edges[edges.len() - 1]);
        assert forall|i: int, j: int|
            #![trigger after[i], after[j]]
            0 <= i < j < after.len() implies !same_edge(after[i], after[j]) by {
            assert(after[i] == before[i]);
            if j < before.len() {
                assert(after[j] == before[j]);
            }
        }
        assert forall|e: EdgeRow| #[trigger] has_edge(after, e) <==> has_edge(edges, e) by {
            if has_edge(edges, e) {
                let k = choose|k: int| 0 <= k < edges.len() && same_edge(#[trigger] edges[k], e);
                if k < head.len() {
                    assert(same_edge(head[k], e));
                    assert(has_edge(before, e));
                    let m = choose|m: int|
                        0 <= m < before.len() && same_edge(#[trigger] before[m], e);
                    assert(after[m] == before[m]);
                } else if has_edge(before, last) {
                    let m = choose|m: int|
                        0 <= m < before.len() && same_edge(#[trigger] before[m], last);
                    assert(same_edge(after[m], e));
                } else {
                    assert(after[before.len() as int] == last);
                }
            }
            if has_edge(after, e) {
                let m = choose|m: int| 0 <= m < after.len() && same_edge(#[trigger] after[m], e);
                if m < before.len() {
                    assert(same_edge(before[m], e));
                    assert(has_edge(before, e));
                    let k = choose|k: int| 0 <= k < head.len() && same_edge(#[trigger] head[k], e);
                    assert(same_edge(edges[k], e));
                } else {
                    assert(same_edge(edges[edges.len() - 1], e));
                }
            }
        }
    }
}

impl GraphStore {
    /// Collapses duplicate edge rows (same endpoints and relationship) to their
    /// first; gives how many were left out.
    pub fn dedup_edges(&mut self) -> (r: usize)
        ensures
            final(self)@ == (Graph { edges: dedup_of(old(self)@.edges), ..old(self)@ }),
            r == old(self)@.edges.len() - final(self)@.edges.len(),
            old(self).valid() ==> final(self).valid(),
    {
        let mut held: Vec<GraphEdge> = Vec::new();
        std::mem::swap(&mut held, &mut self.edges);
        let ghost rows = held@;
        let ghost all = edge_views(rows);
        let mut out: Vec<GraphEdge> = Vec::new();
        let mut gone: usize = 0;
        let n: usize = held.len();
        assert(edge_views(out@) =~= all.take(0));
        for row in it: held
            invariant
                it.seq() == rows,
                all == edge_views(rows),
                n == rows.len(),
                gone <= it.index(),
                out@.len() + gone == it.index(),
                edge_views(out@) == dedup_of(all.take(it.index() as int)),
        {
            let ghost before = edge_views(out@);
            let ghost i = it.index() as int;
            assert(all.take(i + 1).drop_last() =~= all.take(i));
            assert(all.take(i + 1).last() == row@);
            if contains_edge(&out, &row) {
                gone += 1;
            } else {
                out.push(row);
                assert(edge_views(out@) =~= before.push(row@));
            }
        }
        assert(all.take(all.len() as int) =~= all);
        self.edges = out;
        gone
    }
}

// ---------------------------------------------------------------------------
// Provenance
// ---------------------------------------------------------------------------

/// A provenance column that must hold a list holds none.
#[derive(Debug, Clone, Copy, PartialEq, Eq, Structural)]
pub enum GraphError {
    NullSourceRefs,
}

/// The row with another provenance list.
pub open spec fn with_refs(n: NodeRow, raw: Seq<char>) -> NodeRow {
    NodeRow { source_ref_keys: Some(raw), ..n }
}

/// The edge with another provenance list.
pub open spec fn edge_with_refs(e: EdgeRow, raw: Seq<char>) -> EdgeRow {
    EdgeRow { source_ref_keys: Some(raw), ..e }
}

/// The edges with `row` written: where the edge is there already, the first of
/// its rows gets the provenance of `row`; else `row` stands at the end.
pub open spec fn put_edge(edges: Seq<EdgeRow>, row: EdgeRow) -> Seq<EdgeRow> {
    match edge_index(edges, row.from_id, row.to_id, row.relationship_name) {
        Some(i) => edges.update(
            i,
            EdgeRow { source_ref_keys: row.source_ref_keys, ..edges[i] },
        ),
        None => edges.push(row),
    }
}

/// The edges with `rows` written one after the other.
pub open spec fn put_edges(edges: Seq<EdgeRow>, rows: Seq<EdgeRow>) -> Seq<EdgeRow>
    decreases rows.len(),
{
    if rows.len() == 0 {
        edges
    } else {
        put_edge(put_edges(edges, rows.drop_last()), rows.last())
    }
}

/// Writing edges takes none away.
pub proof fn put_edges_never_shrinks(edges: Seq<EdgeRow>, rows: Seq<EdgeRow>)
    ensures
        put_edges(edges, rows).len() >= edges.len(),
    decreases rows.len(),
{
    if rows.len() > 0 {
        let before = put_edges(edges, rows.drop_last());
        put_edges_never_shrinks(edges, rows.drop_last());
        let row = rows.last();
        edge_index_is_first(before, row.from_id, row.to_id, row.relationship_name);
    }
}

/// No data item but the one with the entry `key` owns a row with that list.
pub open spec fn sole_owner(raw: Option<Seq<char>>, key: Seq<char>) -> bool {
    occurrences(raw, key) == entries_opt(raw).len()
}

/// Accepts the edges that no other data item owns.
pub open spec fn edge_unowned(key: Seq<char>) -> spec_fn(EdgeRow) -> bool {
    |e: EdgeRow| sole_owner(e.source_ref_keys, key)
}

/// The edges that go with the data item.
pub open spec fn lone_edges(edges: Seq<EdgeRow>, key: Seq<char>) -> Seq<EdgeRow> {
    edges.filter(edge_goes(key))
}

/// Accepts the edges that carry the entry `key` and no other.
pub open spec fn edge_goes(key: Seq<char>) -> spec_fn(EdgeRow) -> bool {
    |e: EdgeRow| edge_from(key)(e) && edge_unowned(key)(e)
}

/// Accepts the edges that stay.
pub open spec fn edge_stays(key: Seq<char>) -> spec_fn(EdgeRow) -> bool {
    |e: EdgeRow| !edge_goes(key)(e)
}

/// An edge without the entry of the data item.
pub open spec fn edge_released(key: Seq<char>) -> spec_fn(EdgeRow) -> EdgeRow {
    |e: EdgeRow|
        if edge_from(key)(e) {
            edge_with_refs(e, stripped(e.source_ref_keys->0, key))
        } else {
            e
        }
}

/// The nodes, the number of rows rewritten, and whether every list was there,
/// after `key` is taken off the nodes `ids` one after the other; the first
/// missing list ends it.
pub open spec fn detached(
    nodes: Seq<NodeRow>,
    ids: Seq<Seq<char>>,
    key: Seq<char>,
) -> (Seq<NodeRow>, nat, bool)
    decreases ids.len(),
{
    if ids.len() == 0 {
        (nodes, 0, true)
    } else {
        let (rows, n, ok) = detached(nodes, ids.drop_last(), key);
        match node_index(rows, ids.last()) {
            Some(i) if ok => match rows[i].source_ref_keys {
                Some(raw) => (rows.update(i, with_refs(rows[i], stripped(raw, key))), n + 1, true),
                None => (rows, n, false),
            },
            _ => (rows, n, ok),
        }
    }
}

proof fn detach_failure_stays(nodes: Seq<NodeRow>, ids: Seq<Seq<char>>, key: Seq<char>, i: int)
    requires
        0 <= i <= ids.len(),
        !detached(nodes, ids.take(i), key).2,
    ensures
        detached(nodes, ids, key) == detached(nodes, ids.take(i), key),
    decreases ids.len() - i,
{
    if i == ids.len() {
        assert(ids.take(i) =~= ids);
    } else {
        assert(ids.take(i + 1).drop_last() =~= ids.take(i));
        detach_failure_stays(nodes, ids, key, i + 1);
    }
}

/// The first edge with the given endpoints and relationship; an absent
/// relationship is equal to none.
pub open spec fn edge_index(
    edges: Seq<EdgeRow>,
    from: Seq<char>,
    to: Seq<char>,
    rel: Option<Seq<char>>,
) -> Option<int>
    decreases edges.len(),
{
    if edges.len() == 0 {
        None
    } else {
        match edge_index(edges.drop_last(), from, to, rel) {
            Some(i) => Some(i),
            None => if rel is Some && edges.last().from_id == from && edges.last().to_id == to
                && edges.last().relationship_name == rel {
                Some(edges.len() - 1)
            } else {
                None
            },
        }
    }
}

/// `edge_index` finds the first such edge, if there is one.
pub proof fn edge_index_is_first(
    edges: Seq<EdgeRow>,
    from: Seq<char>,
    to: Seq<char>,
    rel: Option<Seq<char>>,
)
    ensures
        match edge_index(edges, from, to, rel) {
            Some(i) => 0 <= i < edges.len() && rel is Some && edges[i].from_id == from
                && edges[i].to_id == to && edges[i].relationship_name == rel && forall|j: int|
                0 <= j < i ==> !((#[trigger] edges[j]).from_id == from && edges[j].to_id == to
                    && edges[j].relationship_name == rel),
            None => rel is Some ==> forall|j: int|
                0 <= j < edges.len() ==> !((#[trigger] edges[j]).from_id == from && edges[j].to_id
                    == to && edges[j].relationship_name == rel),
        },
    decreases edges.len(),
{
    if edges.len() > 0 {
        let head = edges.drop_last();
        edge_index_is_first(head, from, to, rel);
        assert forall|j: int| 0 <= j < head.len() implies edges[j] == head[j] by {}
    }
}

/// The node with `key` added to what the store's row of that identifier says of
/// its provenance; as it is where the store has none.
pub open spec fn node_merged(g: Graph, n: NodeRow, key: Seq<char>) -> NodeRow {
    match node_index(g.nodes, n.id) {
        Some(i) => with_refs(n, merged(g.nodes[i].source_ref_keys, key)),
        None => n,
    }
}

/// The edge with `key` added to what the store's row of that edge says of its
/// provenance; as it is where the store has none.
pub open spec fn edge_merged(g: Graph, e: EdgeRow, key: Seq<char>) -> EdgeRow {
    match edge_index(g.edges, e.from_id, e.to_id, e.relationship_name) {
        Some(i) => edge_with_refs(e, merged(g.edges[i].source_ref_keys, key)),
        None => e,
    }
}

impl GraphStore {
    /// The position of the first edge with the given endpoints and
    /// relationship.
    fn find_edge(&self, from: &str, to: &str, rel: &Option<String>) -> (r: Option<usize>)
        ensures
            match r {
                Some(i) => i < self.edges@.len() && edge_index(self@.edges, from@, to@, opt_view(*rel))
                    == Some(i as int),
                None => edge_index(self@.edges, from@, to@, opt_view(*rel)) is None,
            },
    {
        let ghost all = self@.edges;
        let ghost name = opt_view(*rel);
        proof {
            edge_index_is_first(all, from@, to@, name);
        }
        if rel.is_none() {
            return None;
        }
        let mut i: usize = 0;
        while i < self.edges.len()
            invariant
                i <= self.edges@.len(),
                all == edge_views(self.edges@),
                name == opt_view(*rel),
                name is Some,
                forall|j: int|
                    0 <= j < i ==> !((#[trigger] all[j]).from_id == from@ && all[j].to_id == to@
                        && all[j].relationship_name == name),
            decreases self.edges@.len() - i,
        {
            let e = &self.edges[i];
            assert(all[i as int] == e@);
            if same(e.from_id.as_str(), from) && same(e.to_id.as_str(), to) && same_opt(
                &e.relationship_name,
                rel,
            ) {
                proof {
                    edge_index_is_first(all, from@, to@, name);
                }
                return Some(i);
            }
            i += 1;
        }
        proof {
            edge_index_is_first(all, from@, to@, name);
        }
        None
    }

    /// Adds a provenance entry to what the store's rows say; rows not yet in
    /// the store keep the list they were given. Shared entities collect entries,
    /// so that a node another data item still owns is never taken for unowned.
    pub fn merge_provenance(
        &self,
        nodes: &mut Vec<GraphNode>,
        edges: &mut Vec<GraphEdge>,
        ref_key: &str,
    )
        ensures
            node_views(final(nodes)@) == node_views(old(nodes)@).map_values(
                |n: NodeRow| node_merged(self@, n, ref_key@),
            ),
            edge_views(final(edges)@) == edge_views(old(edges)@).map_values(
                |e: EdgeRow| edge_merged(self@, e, ref_key@),
            ),
    {
        let ghost given_nodes = nodes@;
        let ghost given_edges = edges@;
        let mut new_nodes: Vec<GraphNode> = Vec::new();
        let mut i: usize = 0;
        while i < nodes.len()
            invariant
                i <= nodes@.len(),
                nodes@ == given_nodes,
                new_nodes@.len() == i,
                forall|j: int|
                    0 <= j < i ==> (#[trigger] new_nodes@[j])@ == node_merged(
                        self@,
                        given_nodes[j]@,
                        ref_key@,
                    ),
            decreases nodes@.len() - i,
        {
            let mut n = nodes[i].copy();
            match self.find_node(n.id.as_str()) {
                Some(k) => {
                    let raw = opt_str(&self.nodes[k].source_ref_keys);
                    n.source_ref_keys = Some(merge_ref(raw, ref_key));
                },
                None => {},
            }
            new_nodes.push(n);
            i += 1;
        }
        let mut new_edges: Vec<GraphEdge> = Vec::new();
        let mut k: usize = 0;
        while k < edges.len()
            invariant
                k <= edges@.len(),
                edges@ == given_edges,
                new_edges@.len() == k,
                forall|j: int|
                    0 <= j < k ==> (#[trigger] new_edges@[j])@ == edge_merged(
                        self@,
                        given_edges[j]@,
                        ref_key@,
                    ),
            decreases edges@.len() - k,
        {
            let mut e = edges[k].copy();
            match self.find_edge(e.from_id.as_str(), e.to_id.as_str(), &e.relationship_name) {
                Some(m) => {
                    let raw = opt_str(&self.edges[m].source_ref_keys);
                    e.source_ref_keys = Some(merge_ref(raw, ref_key));
                },
                None => {},
            }
            new_edges.push(e);
            k += 1;
        }
        *nodes = new_nodes;
        *edges = new_edges;
        assert(node_views(nodes@) =~= node_views(given_nodes).map_values(
            |n: NodeRow| node_merged(self@, n, ref_key@),
        ));
        assert(edge_views(edges@) =~= edge_views(given_edges).map_values(
            |e: EdgeRow| edge_merged(self@, e, ref_key@),
        ));
    }

    /// Writes edges: one that is there already keeps its first row, which gets
    /// the provenance of the one written; the others are appended.
    pub fn upsert_edges(&mut self, edges: &[GraphEdge])
        ensures
            final(self)@ == (Graph {
                edges: put_edges(old(self)@.edges, edge_views(edges@)),
                ..old(self)@
            }),
            old(self).valid() ==> final(self).valid(),
    {
        let ghost start = self@;
        let ghost rows = edge_views(edges@);
        let mut i: usize = 0;
        assert(rows.take(0) =~= Seq::empty());
        while i < edges.len()
            invariant
                i <= edges@.len(),
                rows == edge_views(edges@),
                self@ == (Graph { edges: put_edges(start.edges, rows.take(i as int)), ..start }),
            decreases edges@.len() - i,
        {
            let ghost before = self@.edges;
            assert(rows.take(i + 1).drop_last() =~= rows.take(i as int));
            let e = &edges[i];
            match self.find_edge(e.from_id.as_str(), e.to_id.as_str(), &e.relationship_name) {
                Some(k) => {
                    let mut row = self.edges[k].copy();
                    row.source_ref_keys = copy_opt(&e.source_ref_keys);
                    self.edges.set(k, row);
                    assert(self@.edges =~= before.update(k as int, row@));
                },
                None => {
                    self.edges.push(e.copy());
                    assert(self@.edges =~= before.push(rows[i as int]));
                },
            }
            assert(self@.edges == put_edge(before, rows[i as int]));
            i += 1;
        }
        assert(rows.take(rows.len() as int) =~= rows);
    }

    /// Takes an entry off all edges; those that no other entry is left of are
    /// deleted and given back.
    pub fn release_edges(&mut self, ref_key: &str) -> (r: Vec<GraphEdge>)
        ensures
            final(self)@ == (Graph {
                edges: old(self)@.edges.filter(edge_stays(ref_key@)).map_values(
                    edge_released(ref_key@),
                ),
                ..old(self)@
            }),
            edge_views(r@) == lone_edges(old(self)@.edges, ref_key@),
            old(self).valid() ==> final(self).valid(),
    {
        let ghost stays = edge_stays(ref_key@);
        let ghost goes = edge_goes(ref_key@);
        let ghost release = edge_released(ref_key@);
        let mut held: Vec<GraphEdge> = Vec::new();
        std::mem::swap(&mut held, &mut self.edges);
        let ghost rows = held@;
        let ghost all = edge_views(rows);
        let mut kept: Vec<GraphEdge> = Vec::new();
        let mut gone: Vec<GraphEdge> = Vec::new();
        proof {
            filter_ends(all, stays);
            filter_ends(all, goes);
            assert(edge_views(kept@) =~= all.take(0).filter(stays).map_values(release));
            assert(edge_views(gone@) =~= all.take(0).filter(goes));
        }
        for row in it: held
            invariant
                it.seq() == rows,
                all == edge_views(rows),
                stays == edge_stays(ref_key@),
                goes == edge_goes(ref_key@),
                release == edge_released(ref_key@),
                edge_views(kept@) == all.take(it.index() as int).filter(stays).map_values(release),
                edge_views(gone@) == all.take(it.index() as int).filter(goes),
        {
            let ghost i = it.index() as int;
            let ghost had = edge_views(kept@);
            let ghost went = edge_views(gone@);
            let ghost stayed = all.take(i).filter(stays);
            proof {
                filter_step(all, i, stays);
                filter_step(all, i, goes);
                assert(all[i] == row@);
            }
            if carries(&row.source_ref_keys, ref_key) {
                if ref_count(&row.source_ref_keys, ref_key) == total_refs(&row.source_ref_keys) {
                    gone.push(row);
                    assert(edge_views(gone@) =~= went.push(all[i]));
                } else {
                    let mut left = row;
                    left.source_ref_keys = match &left.source_ref_keys {
                        Some(raw) => Some(strip_ref(raw.as_str(), ref_key)),
                        None => None,
                    };
                    assert(left@ == release(all[i]));
                    kept.push(left);
                    assert(edge_views(kept@) =~= had.push(release(all[i])));
                    assert(stayed.push(all[i]).map_values(release) =~= had.push(release(all[i])));
                }
            } else {
                kept.push(row);
                assert(edge_views(kept@) =~= had.push(all[i]));
                assert(stayed.push(all[i]).map_values(release) =~= had.push(release(all[i])));
            }
        }
        proof {
            filter_ends(all, stays);
            filter_ends(all, goes);
        }
        self.edges = kept;
        gone
    }

    /// Takes a provenance entry off nodes; gives how many rows were rewritten.
    /// A node without a provenance list is an error, and what was rewritten
    /// before it stays so.
    pub fn detach_source_ref_from_nodes(
        &mut self,
        ref_key: &str,
        node_ids: &[String],
    ) -> (r: Result<usize, GraphError>)
        ensures
            final(self)@ == (Graph {
                nodes: detached(old(self)@.nodes, views(node_ids@), ref_key@).0,
                ..old(self)@
            }),
            match r {
                Ok(n) => detached(old(self)@.nodes, views(node_ids@), ref_key@).2 && n == detached(
                    old(self)@.nodes,
                    views(node_ids@),
                    ref_key@,
                ).1,
                Err(_) => !detached(old(self)@.nodes, views(node_ids@), ref_key@).2,
            },
            old(self).valid() ==> final(self).valid(),
    {
        let ghost start = self@;
        let ghost ids = views(node_ids@);
        let mut n: usize = 0;
        let mut i: usize = 0;
        assert(ids.take(0) =~= Seq::empty());
        while i < node_ids.len()
            invariant
                i <= node_ids@.len(),
                n <= i,
                ids == views(node_ids@),
                start == old(self)@,
                self@.edges == start.edges,
                self@.metadata == start.metadata,
                (self@.nodes, n as nat, true) == detached(start.nodes, ids.take(i as int), ref_key@),
                distinct_ids(start.nodes) ==> distinct_ids(self@.nodes),
            decreases node_ids@.len() - i,
        {
            let ghost before = self@.nodes;
            assert(ids.take(i + 1).drop_last() =~= ids.take(i as int));
            assert(ids.take(i + 1).last() == node_ids@[i as int]@);
            proof {
                node_index_is_first(before, node_ids@[i as int]@);
            }
            match self.find_node(node_ids[i].as_str()) {
                Some(k) => {
                    let mut row = self.nodes[k].copy();
                    let stripped_list = match &row.source_ref_keys {
                        Some(raw) => strip_ref(raw.as_str(), ref_key),
                        None => {
                            proof {
                                detach_failure_stays(start.nodes, ids, ref_key@, i + 1);
                            }
                            return Err(GraphError::NullSourceRefs);
                        },
                    };
                    row.source_ref_keys = Some(stripped_list);
                    self.nodes.set(k, row);
                    assert(self@.nodes =~= before.update(k as int, row@));
                    n += 1;
                },
                None => {},
            }
            i += 1;
        }
        assert(ids.take(ids.len() as int) =~= ids);
        Ok(n)
    }
}

// ---------------------------------------------------------------------------
// Walking
// ---------------------------------------------------------------------------

/// The relationships that a walk is restricted to; none where any will do.
pub open spec fn rel_filter(rel_types: Option<Seq<String>>) -> Seq<Seq<char>> {
    match rel_types {
        Some(names) => views(names),
        None => Seq::empty(),
    }
}

/// The nodes at the far end of the edges out of `id`, edge by edge.
pub open spec fn neighbours_of(
    nodes: Seq<NodeRow>,
    edges: Seq<EdgeRow>,
    id: Seq<char>,
    rels: Seq<Seq<char>>,
) -> Seq<NodeRow>
    decreases edges.len(),
{
    if edges.len() == 0 {
        Seq::empty()
    } else {
        let before = neighbours_of(nodes, edges.drop_last(), id, rels);
        let e = edges.last();
        match node_index(nodes, e.to_id) {
            Some(i) if e.from_id == id && follows(e, rels) => before.push(nodes[i]),
            _ => before,
        }
    }
}

/// What a [`ReachedNode`] holds.
pub struct ReachedRow {
    pub node: NodeRow,
    pub depth: nat,
}

/// The nodes of the store that the walk reaches, in the order of the store, each
/// with its least depth.
pub open spec fn traverse_of(
    g: Graph,
    seeds: Seq<Seq<char>>,
    max_hops: nat,
    rels: Seq<Seq<char>>,
) -> Seq<ReachedRow> {
    reached_among(g.nodes, g.edges, seeds, max_hops, rels)
}

/// Those of `nodes` that the walk along `edges` reaches, each with its least
/// depth.
pub open spec fn reached_among(
    nodes: Seq<NodeRow>,
    edges: Seq<EdgeRow>,
    seeds: Seq<Seq<char>>,
    max_hops: nat,
    rels: Seq<Seq<char>>,
) -> Seq<ReachedRow>
    decreases nodes.len(),
{
    if nodes.len() == 0 {
        Seq::empty()
    } else {
        let before = reached_among(nodes.drop_last(), edges, seeds, max_hops, rels);
        match least_depth(edges, seeds, rels, nodes.last().id, max_hops) {
            Some(depth) => before.push(ReachedRow { node: nodes.last(), depth }),
            None => before,
        }
    }
}

pub open spec fn reached_views(reached: Seq<ReachedNode>) -> Seq<ReachedRow> {
    reached.map_values(|r: ReachedNode| ReachedRow { node: r.node@, depth: r.depth as nat })
}

/// The traversal gives nodes of the store alone, none deeper than asked, each
/// at its least depth, and it gives every seed that is in the store, at depth
/// zero.
pub proof fn traversal_is_sound(
    nodes: Seq<NodeRow>,
    edges: Seq<EdgeRow>,
    seeds: Seq<Seq<char>>,
    max_hops: nat,
    rels: Seq<Seq<char>>,
)
    ensures
        forall|k: int|
            0 <= k < reached_among(nodes, edges, seeds, max_hops, rels).len() ==> {
                let r = #[trigger] reached_among(nodes, edges, seeds, max_hops, rels)[k];
                &&& nodes.contains(r.node)
                &&& r.depth <= max_hops
                &&& reached_at(edges, seeds, rels, r.node.id, r.depth)
                &&& forall|j: nat|
                    j < r.depth ==> !reached_at(edges, seeds, rels, r.node.id, j)
            },
        forall|i: int|
            0 <= i < nodes.len() && seeds.contains((#[trigger] nodes[i]).id) ==> reached_among(
                nodes,
                edges,
                seeds,
                max_hops,
                rels,
            ).contains(ReachedRow { node: nodes[i], depth: 0 }),
    decreases nodes.len(),
{
    if nodes.len() > 0 {
        let head = nodes.drop_last();
        let last = nodes.last();
        traversal_is_sound(head, edges, seeds, max_hops, rels);
        least_depth_is_least(edges, seeds, rels, last.id, max_hops);
        let before = reached_among(head, edges, seeds, max_hops, rels);
        let after = reached_among(nodes, edges, seeds, max_hops, rels);
        assert forall|k: int| 0 <= k < after.len() implies {
            let r = #[trigger] after[k];
            &&& nodes.contains(r.node)
            &&& r.depth <= max_hops
            &&& reached_at(edges, seeds, rels, r.node.id, r.depth)
            &&& forall|j: nat| j < r.depth ==> !reached_at(edges, seeds, rels, r.node.id, j)
        } by {
            if k < before.len() {
                assert(after[k] == before[k]);
                let i = choose|i: int| 0 <= i < head.len() && head[i] == before[k].node;
                assert(nodes[i] == before[k].node);
            } else {
                assert(nodes[nodes.len() - 1] == last);
            }
        }
        assert forall|i: int|
            0 <= i < nodes.len() && seeds.contains((#[trigger] nodes[i]).id) implies after.contains(
            ReachedRow { node: nodes[i], depth: 0 },
        ) by {
            let row = ReachedRow { node: nodes[i], depth: 0 };
            if i < head.len() {
                assert(head[i] == nodes[i]);
                assert(before.contains(row));
                let k = choose|k: int| 0 <= k < before.len() && before[k] == row;
                assert(after[k] == row);
            } else {
                seeds_are_at_depth_zero(edges, seeds, rels, last.id, max_hops);
                assert(after[before.len() as int] == row);
            }
        }
    }
}

/// Some reached node is that one.
pub open spec fn has_reached(reached: Seq<ReachedRow>, n: NodeRow) -> bool {
    exists|k: int| 0 <= k < reached.len() && (#[trigger] reached[k]).node == n
}

/// The traversal leaves out no node of the store that a seed leads to within the
/// hops asked for.
pub proof fn traversal_is_complete(
    nodes: Seq<NodeRow>,
    edges: Seq<EdgeRow>,
    seeds: Seq<Seq<char>>,
    max_hops: nat,
    rels: Seq<Seq<char>>,
)
    ensures
        forall|i: int, hops: nat|
            #![trigger reached_at(edges, seeds, rels, nodes[i].id, hops)]
            0 <= i < nodes.len() && hops <= max_hops && reached_at(
                edges,
                seeds,
                rels,
                nodes[i].id,
                hops,
            ) ==> has_reached(reached_among(nodes, edges, seeds, max_hops, rels), nodes[i]),
    decreases nodes.len(),
{
    if nodes.len() > 0 {
        let head = nodes.drop_last();
        let before = reached_among(head, edges, seeds, max_hops, rels);
        let after = reached_among(nodes, edges, seeds, max_hops, rels);
        traversal_is_complete(head, edges, seeds, max_hops, rels);
        assert forall|i: int, hops: nat|
            #![trigger reached_at(edges, seeds, rels, nodes[i].id, hops)]
            0 <= i < nodes.len() && hops <= max_hops && reached_at(
                edges,
                seeds,
                rels,
                nodes[i].id,
                hops,
            ) implies has_reached(after, nodes[i]) by {
            if i < head.len() {
                assert(head[i] == nodes[i]);
                assert(reached_at(edges, seeds, rels, head[i].id, hops));
                let k = choose|k: int| 0 <= k < before.len() && (#[trigger] before[k]).node
                    == nodes[i];
                assert(after[k] == before[k]);
            } else {
                least_depth_is_least(edges, seeds, rels, nodes[i].id, max_hops);
                assert(after[before.len() as int].node == nodes[i]);
            }
        }
    }
}

impl GraphStore {
    /// The nodes that the edges out of `id` lead to, optionally restricted to
    /// relationship names.
    pub fn neighbours(&self, id: &str, rel_types: Option<&[String]>) -> (r: Vec<GraphNode>)
        ensures
            node_views(r@) == neighbours_of(
                self@.nodes,
                self@.edges,
                id@,
                rel_filter(
                    match rel_types {
                        Some(names) => Some(names@),
                        None => None,
                    },
                ),
            ),
    {
        let none: Vec<String> = Vec::new();
        let rels: &[String] = match rel_types {
            Some(names) => names,
            None => none.as_slice(),
        };
        let ghost names = views(rels@);
        assert(names =~= rel_filter(
            match rel_types {
                Some(names) => Some(names@),
                None => None,
            },
        ));
        let ghost all = self@.edges;
        let mut out: Vec<GraphNode> = Vec::new();
        let mut i: usize = 0;
        assert(node_views(out@) =~= neighbours_of(self@.nodes, all.take(0), id@, names));
        while i < self.edges.len()
            invariant
                i <= self.edges@.len(),
                all == edge_views(self.edges@),
                names == views(rels@),
                node_views(out@) == neighbours_of(self@.nodes, all.take(i as int), id@, names),
            decreases self.edges@.len() - i,
        {
            let e = &self.edges[i];
            let ghost before = node_views(out@);
            assert(all.take(i + 1).drop_last() =~= all.take(i as int));
            assert(all.take(i + 1).last() == e@);
            if same(e.from_id.as_str(), id) && may_follow(e, rels) {
                match self.find_node(e.to_id.as_str()) {
                    Some(k) => {
                        out.push(self.nodes[k].copy());
                        assert(node_views(out@) =~= before.push(self@.nodes[k as int]));
                    },
                    None => {},
                }
            }
            i += 1;
        }
        assert(all.take(all.len() as int) =~= all);
        out
    }

    /// K-hop neighbourhood around `seeds`, following edges forward: the seeds at
    /// depth 0, direct neighbours at depth 1, and so on up to `max_hops`. A node
    /// reached at several depths keeps only its smallest one.
    pub fn traverse(
        &self,
        seeds: &[String],
        max_hops: u32,
        rel_types: Option<&[String]>,
    ) -> (r: Vec<ReachedNode>)
        ensures
            reached_views(r@) == traverse_of(
                self@,
                views(seeds@),
                max_hops as nat,
                rel_filter(
                    match rel_types {
                        Some(names) => Some(names@),
                        None => None,
                    },
                ),
            ),
    {
        let none: Vec<String> = Vec::new();
        let rels: &[String] = match rel_types {
            Some(names) => names,
            None => none.as_slice(),
        };
        let ghost names = views(rels@);
        assert(names =~= rel_filter(
            match rel_types {
                Some(names) => Some(names@),
                None => None,
            },
        ));
        let ghost nodes = self@.nodes;
        let ghost edges = edge_views(self.edges@);
        let ghost from = views(seeds@);
        let depths = walk(&self.edges, seeds, max_hops, rels);
        let mut out: Vec<ReachedNode> = Vec::new();
        let mut i: usize = 0;
        assert(reached_views(out@) =~= reached_among(
            nodes.take(0),
            edges,
            from,
            max_hops as nat,
            names,
        ));
        while i < self.nodes.len()
            invariant
                i <= self.nodes@.len(),
                nodes == node_views(self.nodes@),
                found_upto(depths@, edges, from, names, max_hops as nat),
                reached_views(out@) == reached_among(
                    nodes.take(i as int),
                    edges,
                    from,
                    max_hops as nat,
                    names,
                ),
            decreases self.nodes@.len() - i,
        {
            let ghost before = reached_views(out@);
            assert(nodes.take(i + 1).drop_last() =~= nodes.take(i as int));
            assert(nodes.take(i + 1).last() == self.nodes@[i as int]@);
            match depths.get(self.nodes[i].id.as_str()) {
                Some(d) => {
                    let reached = ReachedNode { node: self.nodes[i].copy(), depth: *d };
                    let ghost row = ReachedRow { node: reached.node@, depth: reached.depth as nat };
                    out.push(reached);
                    assert(reached_views(out@) =~= before.push(row));
                },
                None => {},
            }
            i += 1;
        }
        assert(nodes.take(nodes.len() as int) =~= nodes);
        out
    }

    /// A store that holds the given rows: nodes and metadata as if written one
    /// after the other, edges as they are.
    pub fn load(
        nodes: &[GraphNode],
        edges: &[GraphEdge],
        metadata: &[(String, String)],
    ) -> (r: GraphStore)
        ensures
            r@ == (Graph {
                nodes: put_nodes(Seq::empty(), node_views(nodes@)),
                edges: edge_views(edges@),
                metadata: put_metadata(Seq::empty(), pair_views(metadata@)),
            }),
            r.valid(),
    {
        let mut store = GraphStore::open_in_memory();
        store.insert_nodes(nodes);
        store.insert_edges(edges);
        store.insert_metadata(metadata);
        assert(Seq::<EdgeRow>::empty() + edge_views(edges@) =~= edge_views(edges@));
        store
    }
}

// ---------------------------------------------------------------------------
// Column lists
// ---------------------------------------------------------------------------

/// The comma-separated columns, each with `alias` and a dot before it.
pub open spec fn qualified_of(columns: Seq<char>, alias: Seq<char>) -> Seq<char> {
    join_of(split_str_of(columns, ", "@).map_values(|c: Seq<char>| alias + "."@ + c), ", "@)
}

/// Prefixes every column in a comma-separated list with a table alias.
pub fn qualified(columns: &str, alias: &str) -> (r: String)
    ensures
        r@ == qualified_of(columns@, alias@),
{
    proof {
        reveal_strlit(", ");
    }
    let parts = split_str(columns, ", ");
    let mut out: Vec<String> = Vec::new();
    let mut i: usize = 0;
    while i < parts.len()
        invariant
            i <= parts@.len(),
            out@.len() == i,
            forall|j: int| 0 <= j < i ==> (#[trigger] out@[j])@ == alias@ + "."@ + parts@[j]@,
        decreases parts@.len() - i,
    {
        out.push(concat3(alias, ".", parts[i].as_str()));
        i += 1;
    }
    assert(views(out@) =~= split_str_of(columns@, ", "@).map_values(
        |c: Seq<char>| alias@ + "."@ + c,
    ));
    join(&out, ", ")
}

} // verus!
