//! Provenance-scoped deletion.
//!
//! A row that comes from the forgotten data item alone is deleted; one that other
//! data items still own only loses the entry of the forgotten one.

use vstd::prelude::*;
use vstd::string::*;

use crate::ingest::datapoints::{source_ref, source_ref_of};
use crate::ingest::ids::{edge_type_id, edge_type_id_of};
use crate::json::{doc_view_parts, doc_views, member, parse_doc, parsed_json, Doc, Json};
use crate::lists::{filter_ends, filter_members, filter_of_map, filter_step, filters_agree};
use crate::storage::dashless::stored_uuid;
use crate::storage::graph::{
    detached, distinct_ids, edge_released, edge_stays, edge_views, filter_keeps_distinct, has_node,
    lone_edges, node_from, node_index, node_index_is_first, node_not_among, node_views, rel_names,
    sole_owner, type_or_empty, with_refs, EdgeRow, Graph, GraphEdge, GraphNode, GraphStore, NodeRow,
};
use crate::storage::groups::{ascending, entry_map, items_under, with_item, Groups};
use crate::storage::refs::{ref_count, stripped, total_refs};
use crate::storage::relational::{
    data_ids, data_in, data_other_than, dataset_at, dataset_at_is_first, dataset_ids,
    dataset_other_than, is_first_unread, is_listing_error, key_text, some_nameless, told_by,
    DataEntry, DatasetEntry, DatasetKey, RelationalError, RelationalStore, Relations,
};
use crate::text::{
    concat3, has, opt_view, or_empty, owned, unique, unique_keeps_each_once, unique_of, views,
};
use crate::uid::{simple_text, uuid_text, Uuid};

verus! {

// ---------------------------------------------------------------------------
// Vector tables
// ---------------------------------------------------------------------------

/// The texts of a list; none of anything else.
pub open spec fn texts_of(items: Seq<Json>) -> Seq<Seq<char>>
    decreases items.len(),
{
    if items.len() == 0 {
        Seq::empty()
    } else {
        match items.last() {
            Json::Text(s) => texts_of(items.drop_last()).push(s),
            _ => texts_of(items.drop_last()),
        }
    }
}

/// The index fields that properties name.
pub open spec fn index_fields_of(properties: Json) -> Seq<Seq<char>> {
    match member(properties, "metadata"@) {
        Some(metadata) => match member(metadata, "index_fields"@) {
            Some(Json::List(items)) => texts_of(items),
            _ => Seq::empty(),
        },
        None => Seq::empty(),
    }
}

/// The vector tables that hold rows of a data point of that type: one for each
/// index field.
pub open spec fn tables_of(type_: Seq<char>, properties: Json) -> Seq<Seq<char>> {
    index_fields_of(properties).map_values(|f: Seq<char>| type_ + "_"@ + f)
}

/// The properties of a row as a document; null where they spell none.
pub open spec fn properties_of(raw: Option<Seq<char>>) -> Json {
    match raw {
        Some(text) => match parsed_json(text) {
            Some(doc) => doc,
            None => Json::Null,
        },
        None => Json::Null,
    }
}

/// The vector tables that hold rows of a node.
pub open spec fn node_tables(n: NodeRow) -> Seq<Seq<char>> {
    tables_of(type_or_empty(n), properties_of(n.properties))
}

/// The texts of a list of documents.
fn list_texts(items: &Vec<Doc>) -> (r: Vec<String>)
    ensures
        views(r@) == texts_of(doc_views(items@)),
{
    let ghost all = doc_views(items@);
    let mut out: Vec<String> = Vec::new();
    let mut i: usize = 0;
    assert(views(out@) =~= texts_of(all.take(0)));
    while i < items.len()
        invariant
            i <= items@.len(),
            all == doc_views(items@),
            views(out@) == texts_of(all.take(i as int)),
        decreases items@.len() - i,
    {
        let ghost before = views(out@);
        assert(all.take(i + 1).drop_last() =~= all.take(i as int));
        assert(all.take(i + 1).last() == items@[i as int]@);
        match items[i].as_str() {
            Some(s) => {
                out.push(owned(s));
                assert(views(out@) =~= before.push(s@));
            },
            None => {},
        }
        i += 1;
    }
    assert(all.take(all.len() as int) =~= all);
    out
}

/// The index fields that properties name.
pub fn index_fields(properties: &Doc) -> (r: Vec<String>)
    ensures
        views(r@) == index_fields_of(properties@),
{
    broadcast use doc_view_parts;

    let none: Vec<String> = Vec::new();
    assert(views(none@) =~= Seq::empty());
    match properties.get("metadata") {
        Some(metadata) => match metadata.get("index_fields") {
            Some(Doc::List(items)) => list_texts(items),
            _ => none,
        },
        None => none,
    }
}

/// The vector tables that hold rows of a data point of that type.
pub fn vector_tables_for(type_: &str, properties: &Doc) -> (r: Vec<String>)
    ensures
        views(r@) == tables_of(type_@, properties@),
{
    let fields = index_fields(properties);
    let mut out: Vec<String> = Vec::new();
    let mut i: usize = 0;
    while i < fields.len()
        invariant
            i <= fields@.len(),
            out@.len() == i,
            forall|j: int| 0 <= j < i ==> (#[trigger] out@[j])@ == type_@ + "_"@ + fields@[j]@,
        decreases fields@.len() - i,
    {
        out.push(concat3(type_, "_", fields[i].as_str()));
        i += 1;
    }
    assert(views(out@) =~= tables_of(type_@, properties@));
    out
}

/// The properties of a row as a document.
pub fn read_properties(raw: &Option<String>) -> (r: Doc)
    ensures
        r@ == properties_of(opt_view(*raw)),
{
    match raw {
        Some(text) => match parse_doc(text.as_str()) {
            Some(d) => d,
            None => Doc::Null,
        },
        None => Doc::Null,
    }
}

/// The vector tables that hold rows of a node.
pub fn tables_for_node(n: &GraphNode) -> (r: Vec<String>)
    ensures
        views(r@) == node_tables(n@),
{
    let type_ = or_empty(&n.type_);
    let properties = read_properties(&n.properties);
    vector_tables_for(type_.as_str(), &properties)
}

// ---------------------------------------------------------------------------
// Targets and reports
// ---------------------------------------------------------------------------

/// What is to be forgotten.
#[derive(Debug, PartialEq)]
pub enum ForgetTarget {
    /// One data item within a dataset.
    DataItem { dataset: DatasetKey, data_id: Uuid },
    /// Every data item in a dataset, and the dataset.
    Dataset { dataset: DatasetKey },
    /// All datasets.
    Everything,
}

/// What was forgotten.
#[derive(Debug, PartialEq)]
pub struct ForgetReport {
    pub data_items: usize,
    pub nodes_deleted: usize,
    pub nodes_detached: usize,
    pub edges_deleted: usize,
    pub vectors_deleted: usize,
    pub datasets_deleted: usize,
}

impl Default for ForgetReport {
    fn default() -> (r: ForgetReport)
        ensures
            r.data_items == 0,
            r.nodes_deleted == 0,
            r.nodes_detached == 0,
            r.edges_deleted == 0,
            r.vectors_deleted == 0,
            r.datasets_deleted == 0,
    {
        ForgetReport {
            data_items: 0,
            nodes_deleted: 0,
            nodes_detached: 0,
            edges_deleted: 0,
            vectors_deleted: 0,
            datasets_deleted: 0,
        }
    }
}

/// Why nothing was forgotten.
#[derive(Debug)]
pub enum ForgetError {
    /// A data item was named without its dataset.
    NoDataset,
    /// Nothing was named.
    NoTarget,
    /// The metadata could not be read.
    Relational(RelationalError),
}

/// The key is what the parameters tell a dataset by: its name or, failing that,
/// its identifier.
pub open spec fn is_given_key(
    key: DatasetKey,
    dataset: Option<Seq<char>>,
    dataset_id: Option<Uuid>,
) -> bool {
    match key {
        DatasetKey::Name(name) => dataset == Some(name@),
        DatasetKey::Id(id) => dataset is None && dataset_id == Some(id),
    }
}

/// What the parameters of a request stand for.
pub fn resolve_target(
    data_id: Option<Uuid>,
    dataset: Option<String>,
    dataset_id: Option<Uuid>,
    everything: bool,
) -> (r: Result<ForgetTarget, ForgetError>)
    ensures
        ({
            let name = opt_view(dataset);
            let keyless = name is None && dataset_id is None;
            match r {
                Ok(ForgetTarget::Everything) => everything,
                Ok(ForgetTarget::DataItem { dataset: d, data_id: i }) => !everything && data_id
                    == Some(i) && is_given_key(d, name, dataset_id),
                Ok(ForgetTarget::Dataset { dataset: d }) => !everything && data_id is None
                    && is_given_key(d, name, dataset_id),
                Err(ForgetError::NoDataset) => !everything && data_id is Some && keyless,
                Err(ForgetError::NoTarget) => !everything && data_id is None && keyless,
                Err(ForgetError::Relational(_)) => false,
            }
        }),
{
    if everything {
        return Ok(ForgetTarget::Everything);
    }
    let key = match dataset {
        Some(name) => Some(DatasetKey::Name(name)),
        None => match dataset_id {
            Some(id) => Some(DatasetKey::Id(id)),
            None => None,
        },
    };
    match (data_id, key) {
        (Some(data_id), Some(dataset)) => Ok(ForgetTarget::DataItem { dataset, data_id }),
        (Some(_), None) => Err(ForgetError::NoDataset),
        (None, Some(dataset)) => Ok(ForgetTarget::Dataset { dataset }),
        (None, None) => Err(ForgetError::NoTarget),
    }
}

// ---------------------------------------------------------------------------
// One data item
// ---------------------------------------------------------------------------

/// Accepts the nodes that no other data item owns.
pub open spec fn node_unowned(key: Seq<char>) -> spec_fn(NodeRow) -> bool {
    |n: NodeRow| sole_owner(n.source_ref_keys, key)
}

/// Accepts the nodes that another data item owns too.
pub open spec fn node_shared(key: Seq<char>) -> spec_fn(NodeRow) -> bool {
    |n: NodeRow| !sole_owner(n.source_ref_keys, key)
}

/// The nodes that go with the data item.
pub open spec fn lone_nodes(nodes: Seq<NodeRow>, key: Seq<char>) -> Seq<NodeRow> {
    nodes.filter(node_from(key)).filter(node_unowned(key))
}

/// The nodes that stay without the entry of the data item.
pub open spec fn shared_nodes(nodes: Seq<NodeRow>, key: Seq<char>) -> Seq<NodeRow> {
    nodes.filter(node_from(key)).filter(node_shared(key))
}

pub open spec fn node_ids(nodes: Seq<NodeRow>) -> Seq<Seq<char>> {
    nodes.map_values(|n: NodeRow| n.id)
}

/// Accepts the nodes that stay.
pub open spec fn node_stays(key: Seq<char>) -> spec_fn(NodeRow) -> bool {
    |n: NodeRow| !(node_from(key)(n) && node_unowned(key)(n))
}

/// A node without the entry of the data item.
pub open spec fn node_released(key: Seq<char>) -> spec_fn(NodeRow) -> NodeRow {
    |n: NodeRow|
        if node_from(key)(n) && !node_unowned(key)(n) {
            with_refs(n, stripped(n.source_ref_keys->0, key))
        } else {
            n
        }
}

/// The graph after the data item with the entry `key` is forgotten: the nodes
/// and edges that come from it alone are gone, those that others own too are
/// without its entry.
pub open spec fn graph_without(g: Graph, key: Seq<char>) -> Graph {
    Graph {
        nodes: g.nodes.filter(node_stays(key)).map_values(node_released(key)),
        edges: g.edges.filter(edge_stays(key)).map_values(edge_released(key)),
        ..g
    }
}

/// No text occurs twice.
pub open spec fn no_repeats(ids: Seq<Seq<char>>) -> bool {
    forall|i: int, j: int|
        #![trigger ids[i], ids[j]]
        0 <= i < j < ids.len() ==> ids[i] != ids[j]
}

/// Some node has that identifier and a provenance list.
pub open spec fn has_listed(nodes: Seq<NodeRow>, id: Seq<char>) -> bool {
    exists|k: int|
        0 <= k < nodes.len() && (#[trigger] nodes[k]).id == id && nodes[k].source_ref_keys is Some
}

/// Taking an entry off listed nodes rewrites just those.
proof fn detaching_is_pointwise(nodes: Seq<NodeRow>, ids: Seq<Seq<char>>, key: Seq<char>)
    requires
        distinct_ids(nodes),
        no_repeats(ids),
        forall|i: int| 0 <= i < ids.len() ==> has_listed(nodes, #[trigger] ids[i]),
    ensures
        detached(nodes, ids, key).2,
        detached(nodes, ids, key).1 == ids.len(),
        detached(nodes, ids, key).0.len() == nodes.len(),
        forall|k: int|
            0 <= k < nodes.len() ==> #[trigger] detached(nodes, ids, key).0[k] == (if ids.contains(
                nodes[k].id,
            ) {
                with_refs(nodes[k], stripped(nodes[k].source_ref_keys->0, key))
            } else {
                nodes[k]
            }),
    decreases ids.len(),
{
    if ids.len() > 0 {
        let head = ids.drop_last();
        let last = ids.last();
        assert(no_repeats(head)) by {
            assert forall|i: int, j: int|
                #![trigger head[i], head[j]]
                0 <= i < j < head.len() implies head[i] != head[j] by {
                assert(head[i] == ids[i] && head[j] == ids[j]);
            }
        }
        assert forall|i: int| 0 <= i < head.len() implies has_listed(nodes, #[trigger] head[i]) by {
            assert(head[i] == ids[i]);
        }
        detaching_is_pointwise(nodes, head, key);
        let rows = detached(nodes, head, key).0;
        assert(!head.contains(last)) by {
            if head.contains(last) {
                let i = choose|i: int| 0 <= i < head.len() && head[i] == last;
                assert(ids[i] == ids[ids.len() - 1]);
            }
        }
        assert(has_listed(nodes, ids[ids.len() - 1]));
        let at = choose|k: int|
            0 <= k < nodes.len() && (#[trigger] nodes[k]).id == last
                && nodes[k].source_ref_keys is Some;
        assert(rows[at] == nodes[at]);
        assert(has_node(rows, last));
        node_index_is_first(rows, last);
        let i = node_index(rows, last)->0;
        assert(rows[i].id == nodes[i].id);
        assert(i == at);
        let now = detached(nodes, ids, key).0;
        assert(now == rows.update(i, with_refs(rows[i], stripped(rows[i].source_ref_keys->0, key))));
        assert forall|k: int| 0 <= k < nodes.len() implies #[trigger] now[k] == (if ids.contains(
            nodes[k].id,
        ) {
            with_refs(nodes[k], stripped(nodes[k].source_ref_keys->0, key))
        } else {
            nodes[k]
        }) by {
            assert(rows[k].id == nodes[k].id);
            if k == i {
                assert(ids[ids.len() - 1] == nodes[k].id);
            } else {
                assert(nodes[k].id != nodes[i].id);
                assert(ids.contains(nodes[k].id) == head.contains(nodes[k].id)) by {
                    if ids.contains(nodes[k].id) {
                        let m = choose|m: int| 0 <= m < ids.len() && ids[m] == nodes[k].id;
                        assert(head[m] == nodes[k].id);
                    }
                    if head.contains(nodes[k].id) {
                        let m = choose|m: int| 0 <= m < head.len() && head[m] == nodes[k].id;
                        assert(ids[m] == nodes[k].id);
                    }
                }
            }
        }
    }
}

/// Identifiers of filtered rows do not repeat.
proof fn ids_do_not_repeat(nodes: Seq<NodeRow>)
    requires
        distinct_ids(nodes),
    ensures
        no_repeats(node_ids(nodes)),
{
    let ids = node_ids(nodes);
    assert forall|i: int, j: int|
        #![trigger ids[i], ids[j]]
        0 <= i < j < ids.len() implies ids[i] != ids[j] by {
        assert(nodes[i].id != nodes[j].id);
    }
}

/// Among rows with distinct identifiers, an identifier is that of a filtered
/// row exactly where its own row goes through the filters.
proof fn id_among_filtered(
    nodes: Seq<NodeRow>,
    p: spec_fn(NodeRow) -> bool,
    q: spec_fn(NodeRow) -> bool,
    k: int,
)
    requires
        distinct_ids(nodes),
        0 <= k < nodes.len(),
    ensures
        node_ids(nodes.filter(p).filter(q)).contains(nodes[k].id) <==> p(nodes[k]) && q(nodes[k]),
{
    let found = nodes.filter(p);
    let kept = found.filter(q);
    filter_members(nodes, p);
    filter_members(found, q);
    if p(nodes[k]) && q(nodes[k]) {
        assert(nodes.contains(nodes[k]));
        assert(kept.contains(nodes[k]));
        let i = choose|i: int| 0 <= i < kept.len() && kept[i] == nodes[k];
        assert(node_ids(kept)[i] == nodes[k].id);
    }
    if node_ids(kept).contains(nodes[k].id) {
        let i = choose|i: int| 0 <= i < kept.len() && node_ids(kept)[i] == nodes[k].id;
        assert(kept.contains(kept[i]));
        assert(nodes.contains(kept[i]));
        let m = choose|m: int| 0 <= m < nodes.len() && nodes[m] == kept[i];
        assert(m == k);
    }
}

/// Detaching the shared nodes and deleting the others leaves what is stated.
proof fn detached_and_deleted(nodes: Seq<NodeRow>, key: Seq<char>)
    requires
        distinct_ids(nodes),
    ensures
        ({
            let rows = detached(nodes, node_ids(shared_nodes(nodes, key)), key);
            &&& rows.2
            &&& rows.0.filter(node_not_among(node_ids(lone_nodes(nodes, key)))) == nodes.filter(
                node_stays(key),
            ).map_values(node_released(key))
        }),
{
    let found = nodes.filter(node_from(key));
    let shared = shared_nodes(nodes, key);
    let ids = node_ids(shared);
    let lone = node_ids(lone_nodes(nodes, key));
    filter_keeps_distinct(nodes, node_from(key));
    filter_keeps_distinct(found, node_shared(key));
    ids_do_not_repeat(shared);
    filter_members(nodes, node_from(key));
    filter_members(found, node_shared(key));
    assert forall|i: int| 0 <= i < ids.len() implies has_listed(nodes, #[trigger] ids[i]) by {
        assert(shared.contains(shared[i]));
        assert(found.contains(shared[i]));
        let k = choose|k: int| 0 <= k < nodes.len() && nodes[k] == shared[i];
        assert(nodes[k].source_ref_keys is Some);
    }
    detaching_is_pointwise(nodes, ids, key);
    let rows = detached(nodes, ids, key).0;
    let f = node_released(key);
    assert forall|k: int| 0 <= k < nodes.len() implies #[trigger] rows[k] == f(nodes[k]) by {
        id_among_filtered(nodes, node_from(key), node_shared(key), k);
    }
    assert(rows =~= nodes.map_values(f));
    assert forall|k: int| 0 <= k < nodes.len() implies node_not_among(lone)(f(#[trigger] nodes[k]))
        == node_stays(key)(nodes[k]) by {
        id_among_filtered(nodes, node_from(key), node_unowned(key), k);
        assert(f(nodes[k]).id == nodes[k].id);
    }
    filter_of_map(nodes, f, node_not_among(lone), node_stays(key));
}

/// What forgetting one data item does to the graph.
struct Split {
    lone_nodes: Vec<GraphNode>,
    shared_ids: Vec<String>,
    lone_edges: Vec<GraphEdge>,
}

/// Parts the nodes that come from a data item.
fn part_nodes(found: Vec<GraphNode>, key: &str) -> (r: (Vec<GraphNode>, Vec<String>))
    ensures
        node_views(r.0@) == node_views(found@).filter(node_unowned(key@)),
        views(r.1@) == node_ids(node_views(found@).filter(node_shared(key@))),
{
    let ghost all = node_views(found@);
    let ghost p = node_unowned(key@);
    let ghost q = node_shared(key@);
    let mut lone: Vec<GraphNode> = Vec::new();
    let mut shared: Vec<String> = Vec::new();
    proof {
        filter_ends(all, p);
        filter_ends(all, q);
    }
    assert(node_views(lone@) =~= all.take(0).filter(p));
    assert(views(shared@) =~= node_ids(all.take(0).filter(q)));
    for n in it: found
        invariant
            all == node_views(it.seq()),
            p == node_unowned(key@),
            q == node_shared(key@),
            node_views(lone@) == all.take(it.index() as int).filter(p),
            views(shared@) == node_ids(all.take(it.index() as int).filter(q)),
    {
        let ghost i = it.index() as int;
        proof {
            filter_step(all, i, p);
            filter_step(all, i, q);
            assert(all[i] == n@);
        }
        let ghost had_lone = node_views(lone@);
        let ghost had_shared = all.take(i).filter(q);
        if ref_count(&n.source_ref_keys, key) == total_refs(&n.source_ref_keys) {
            lone.push(n);
            assert(node_views(lone@) =~= had_lone.push(all[i]));
        } else {
            let ghost had_ids = views(shared@);
            shared.push(owned(n.id.as_str()));
            assert(views(shared@) =~= had_ids.push(all[i].id));
            assert(node_ids(had_shared.push(all[i])) =~= had_ids.push(all[i].id));
        }
    }
    proof {
        filter_ends(all, p);
        filter_ends(all, q);
    }
    (lone, shared)
}

/// The identifiers of nodes.
fn ids_of(nodes: &[GraphNode]) -> (r: Vec<String>)
    ensures
        views(r@) == node_ids(node_views(nodes@)),
{
    let mut out: Vec<String> = Vec::new();
    let mut i: usize = 0;
    while i < nodes.len()
        invariant
            i <= nodes@.len(),
            out@.len() == i,
            forall|j: int| 0 <= j < i ==> (#[trigger] out@[j])@ == nodes@[j].id@,
        decreases nodes@.len() - i,
    {
        out.push(owned(nodes[i].id.as_str()));
        i += 1;
    }
    assert(views(out@) =~= node_ids(node_views(nodes@)));
    out
}

/// Takes the data item with the entry `key` out of the graph; gives what went
/// and what was detached.
fn release(graph: &mut GraphStore, key: &str) -> (r: Split)
    requires
        old(graph).valid(),
    ensures
        final(graph).valid(),
        final(graph)@ == graph_without(old(graph)@, key@),
        node_views(r.lone_nodes@) == lone_nodes(old(graph)@.nodes, key@),
        views(r.shared_ids@) == node_ids(shared_nodes(old(graph)@.nodes, key@)),
        edge_views(r.lone_edges@) == lone_edges(old(graph)@.edges, key@),
{
    let ghost start = graph@;
    let (lone, shared_ids) = part_nodes(graph.nodes_with_source_ref(key), key);
    let lone_ids = ids_of(&lone);
    proof {
        detached_and_deleted(start.nodes, key@);
    }
    let _ = graph.detach_source_ref_from_nodes(key, &shared_ids);
    let lone_edges = graph.release_edges(key);
    graph.delete_nodes(&lone_ids);
    Split { lone_nodes: lone, shared_ids, lone_edges }
}

// ---------------------------------------------------------------------------
// The data items of a target
// ---------------------------------------------------------------------------

/// The identifier that a stored text spells.
pub open spec fn stored_id(hex: Seq<char>) -> Uuid {
    Uuid { value: stored_uuid(hex)->0 as u128 }
}

/// Every identifier can be read.
pub open spec fn ids_readable(rows: Seq<DataEntry>) -> bool {
    forall|i: int| 0 <= i < rows.len() ==> stored_uuid((#[trigger] rows[i]).id) is Some
}

/// The data items of a dataset; none where an identifier cannot be read.
pub open spec fn items_in(data: Seq<DataEntry>, dataset: Uuid) -> Option<Seq<(Uuid, Uuid)>> {
    let rows = data.filter(data_in(simple_text(dataset.value)));
    if ids_readable(rows) {
        Some(rows.map_values(|d: DataEntry| (stored_id(d.id), dataset)))
    } else {
        None
    }
}

/// The data items of datasets, one dataset after the other.
pub open spec fn items_in_all(data: Seq<DataEntry>, datasets: Seq<Uuid>) -> Option<
    Seq<(Uuid, Uuid)>,
>
    decreases datasets.len(),
{
    if datasets.len() == 0 {
        Some(Seq::empty())
    } else {
        match (items_in_all(data, datasets.drop_last()), items_in(data, datasets.last())) {
            (Some(before), Some(items)) => Some(before + items),
            _ => None,
        }
    }
}

/// The dataset that a key tells.
pub open spec fn dataset_named(r: Relations, key: DatasetKey) -> Option<Uuid> {
    match dataset_at(r.datasets, key) {
        Some(i) => match stored_uuid(r.datasets[i].id) {
            Some(_) => Some(stored_id(r.datasets[i].id)),
            None => None,
        },
        None => None,
    }
}

/// All datasets have a name and a readable identifier.
pub open spec fn datasets_readable(rows: Seq<DatasetEntry>) -> bool {
    forall|i: int|
        0 <= i < rows.len() ==> (#[trigger] rows[i]).name is Some && stored_uuid(rows[i].id) is Some
}

/// The data items that a target stands for, each with its dataset; none where
/// they cannot be told.
pub open spec fn items_of(r: Relations, target: ForgetTarget) -> Option<Seq<(Uuid, Uuid)>> {
    match target {
        ForgetTarget::DataItem { dataset, data_id } => match dataset_named(r, dataset) {
            Some(id) => Some(seq![(data_id, id)]),
            None => None,
        },
        ForgetTarget::Dataset { dataset } => match dataset_named(r, dataset) {
            Some(id) => items_in(r.data, id),
            None => None,
        },
        ForgetTarget::Everything => if datasets_readable(r.datasets) {
            items_in_all(r.data, r.datasets.map_values(|d: DatasetEntry| stored_id(d.id)))
        } else {
            None
        },
    }
}

/// Why a dataset cannot be told by its key.
pub open spec fn is_dataset_error(r: Relations, key: DatasetKey, e: RelationalError) -> bool {
    match dataset_at(r.datasets, key) {
        None => e matches RelationalError::DatasetNotFound(n) && n@ == key_text(key),
        Some(i) => e matches RelationalError::BadId(hex) && hex@ == r.datasets[i].id
            && stored_uuid(hex@) is None,
    }
}

/// The error gives the first data item of a dataset whose identifier cannot be
/// read.
pub open spec fn is_unread_item(data: Seq<DataEntry>, dataset: Uuid, e: RelationalError) -> bool {
    e matches RelationalError::BadId(hex) && is_first_unread(
        data_ids(data.filter(data_in(simple_text(dataset.value)))),
        hex@,
    )
}

/// The error is that of the first dataset with a data item that cannot be read.
pub open spec fn is_first_unread_item(
    data: Seq<DataEntry>,
    datasets: Seq<Uuid>,
    e: RelationalError,
) -> bool {
    exists|i: int|
        0 <= i < datasets.len() && items_in_all(data, datasets.take(i)) is Some && is_unread_item(
            data,
            #[trigger] datasets[i],
            e,
        )
}

/// Why the data items that a target stands for cannot be told.
pub open spec fn is_items_error(r: Relations, target: ForgetTarget, e: RelationalError) -> bool {
    match target {
        ForgetTarget::DataItem { dataset, .. } => is_dataset_error(r, dataset, e),
        ForgetTarget::Dataset { dataset } => match dataset_named(r, dataset) {
            Some(id) => is_unread_item(r.data, id, e),
            None => is_dataset_error(r, dataset, e),
        },
        ForgetTarget::Everything => if datasets_readable(r.datasets) {
            is_first_unread_item(
                r.data,
                r.datasets.map_values(|d: DatasetEntry| stored_id(d.id)),
                e,
            )
        } else {
            is_listing_error(r.datasets, e)
        },
    }
}

/// Adds the data items of a dataset.
fn add_items(
    relational: &RelationalStore,
    dataset: Uuid,
    out: &mut Vec<(Uuid, Uuid)>,
) -> (r: Result<(), RelationalError>)
    ensures
        match r {
            Ok(_) => items_in(relational@.data, dataset) matches Some(items) && final(out)@ == old(
                out,
            )@ + items,
            Err(e) => items_in(relational@.data, dataset) is None && is_unread_item(
                relational@.data,
                dataset,
                e,
            ),
        },
{
    let ghost rows = relational@.data.filter(data_in(simple_text(dataset.value)));
    let ghost start = out@;
    let ids = match relational.data_ids_for_dataset(dataset) {
        Ok(ids) => ids,
        Err(e) => {
            proof {
                let all = data_ids(rows);
                let i = choose|i: int|
                    0 <= i < all.len() && stored_uuid(#[trigger] all[i]) is None;
                assert(stored_uuid(rows[i].id) is None);
            }
            return Err(e);
        },
    };
    proof {
        assert(ids_readable(rows)) by {
            assert forall|i: int| 0 <= i < rows.len() implies stored_uuid(
                (#[trigger] rows[i]).id,
            ) is Some by {
                assert(stored_uuid(rows[i].id) == Some(ids@[i].value as int));
            }
        }
    }
    let ghost items = rows.map_values(|d: DataEntry| (stored_id(d.id), dataset));
    let mut i: usize = 0;
    while i < ids.len()
        invariant
            i <= ids@.len(),
            ids@.len() == rows.len(),
            items == rows.map_values(|d: DataEntry| (stored_id(d.id), dataset)),
            forall|j: int|
                0 <= j < ids@.len() ==> stored_uuid(rows[j].id) == Some(
                    (#[trigger] ids@[j]).value as int,
                ),
            out@ == start + items.take(i as int),
        decreases ids@.len() - i,
    {
        assert(items.take(i + 1) =~= items.take(i as int).push((ids@[i as int], dataset)));
        out.push((ids[i], dataset));
        i += 1;
    }
    assert(items.take(items.len() as int) =~= items);
    Ok(())
}

/// The data items of the dataset that a key tells.
fn dataset_items(dataset: &DatasetKey, relational: &RelationalStore) -> (r: Result<
    Vec<(Uuid, Uuid)>,
    RelationalError,
>)
    ensures
        match r {
            Ok(items) => dataset_named(relational@, *dataset) matches Some(id) && items_in(
                relational@.data,
                id,
            ) == Some(items@),
            Err(e) => match dataset_named(relational@, *dataset) {
                Some(id) => items_in(relational@.data, id) is None && is_unread_item(
                    relational@.data,
                    id,
                    e,
                ),
                None => is_dataset_error(relational@, *dataset, e),
            },
        },
{
    let mut out: Vec<(Uuid, Uuid)> = Vec::new();
    match relational.dataset_id_at(dataset) {
        Ok(id) => match add_items(relational, id, &mut out) {
            Ok(_) => {
                assert(out@ =~= items_in(relational@.data, id)->0);
                Ok(out)
            },
            Err(e) => Err(e),
        },
        Err(e) => Err(e),
    }
}

/// The data items of all datasets.
#[verifier::spinoff_prover]
fn all_items(relational: &RelationalStore) -> (r: Result<Vec<(Uuid, Uuid)>, RelationalError>)
    ensures
        ({
            let rows = relational@.datasets;
            let ids = rows.map_values(|d: DatasetEntry| stored_id(d.id));
            match r {
                Ok(items) => datasets_readable(rows) && items_in_all(relational@.data, ids) == Some(
                    items@,
                ),
                Err(e) => if datasets_readable(rows) {
                    items_in_all(relational@.data, ids) is None && is_first_unread_item(
                        relational@.data,
                        ids,
                        e,
                    )
                } else {
                    is_listing_error(rows, e)
                },
            }
        }),
{
    let mut out: Vec<(Uuid, Uuid)> = Vec::new();
    let datasets = match relational.all_datasets() {
        Ok(list) => list,
        Err(e) => {
            proof {
                let rows = relational@.datasets;
                if !some_nameless(rows) {
                    let ids = dataset_ids(rows);
                    let i = choose|i: int|
                        0 <= i < ids.len() && stored_uuid(#[trigger] ids[i]) is None;
                    assert(stored_uuid(rows[i].id) is None);
                }
                assert(!datasets_readable(rows));
            }
            return Err(e);
        },
    };
    let ghost ids = relational@.datasets.map_values(|d: DatasetEntry| stored_id(d.id));
    proof {
        assert forall|i: int| 0 <= i < relational@.datasets.len() implies (
        #[trigger] relational@.datasets[i]).name is Some && stored_uuid(
            relational@.datasets[i].id,
        ) is Some by {
            assert(relational@.datasets[i].name == Some(datasets@[i].1@));
        }
        assert(ids.take(0) =~= Seq::empty());
    }
    let mut i: usize = 0;
    while i < datasets.len()
        invariant
            i <= datasets@.len(),
            datasets@.len() == ids.len(),
            ids == relational@.datasets.map_values(|d: DatasetEntry| stored_id(d.id)),
            datasets_readable(relational@.datasets),
            forall|j: int|
                0 <= j < datasets@.len() ==> stored_uuid(relational@.datasets[j].id) == Some(
                    (#[trigger] datasets@[j]).0.value as int,
                ),
            items_in_all(relational@.data, ids.take(i as int)) == Some(out@),
        decreases datasets@.len() - i,
    {
        assert(ids[i as int] == datasets@[i as int].0);
        assert(ids.take(i + 1).drop_last() =~= ids.take(i as int));
        match add_items(relational, datasets[i].0, &mut out) {
            Ok(_) => {},
            Err(e) => {
                proof {
                    items_stay_unread(relational@.data, ids, i + 1);
                    assert(is_unread_item(relational@.data, ids[i as int], e));
                }
                return Err(e);
            },
        }
        i += 1;
    }
    assert(ids.take(ids.len() as int) =~= ids);
    Ok(out)
}

/// The data items that a target stands for, each with its dataset.
pub fn target_items(target: &ForgetTarget, relational: &RelationalStore) -> (r: Result<
    Vec<(Uuid, Uuid)>,
    ForgetError,
>)
    ensures
        match r {
            Ok(items) => items_of(relational@, *target) == Some(items@),
            Err(ForgetError::Relational(e)) => items_of(relational@, *target) is None
                && is_items_error(relational@, *target, e),
            Err(_) => false,
        },
{
    let found = match target {
        ForgetTarget::DataItem { dataset, data_id } => match relational.dataset_id_at(dataset) {
            Ok(id) => {
                let mut out: Vec<(Uuid, Uuid)> = Vec::new();
                out.push((*data_id, id));
                assert(out@ =~= seq![(*data_id, id)]);
                Ok(out)
            },
            Err(e) => Err(e),
        },
        ForgetTarget::Dataset { dataset } => dataset_items(dataset, relational),
        ForgetTarget::Everything => all_items(relational),
    };
    match found {
        Ok(items) => Ok(items),
        Err(e) => Err(ForgetError::Relational(e)),
    }
}

proof fn items_stay_unread(data: Seq<DataEntry>, datasets: Seq<Uuid>, i: int)
    requires
        0 <= i <= datasets.len(),
        items_in_all(data, datasets.take(i)) is None,
    ensures
        items_in_all(data, datasets) is None,
    decreases datasets.len() - i,
{
    if i == datasets.len() {
        assert(datasets.take(i) =~= datasets);
    } else {
        assert(datasets.take(i + 1).drop_last() =~= datasets.take(i));
        items_stay_unread(data, datasets, i + 1);
    }
}

// ---------------------------------------------------------------------------
// All data items
// ---------------------------------------------------------------------------

/// What is left and what went after data items were forgotten.
pub struct Swept {
    pub graph: Graph,
    pub data: Seq<DataEntry>,
    /// The nodes deleted.
    pub nodes: Seq<NodeRow>,
    /// The identifiers of the nodes detached.
    pub detached: Seq<Seq<char>>,
    /// The edges deleted.
    pub edges: Seq<EdgeRow>,
}

/// The provenance entry of a data item in its dataset.
pub open spec fn item_key(item: (Uuid, Uuid)) -> Seq<char> {
    source_ref_of(uuid_text(item.1.value), uuid_text(item.0.value))
}

/// After the data items were forgotten one after the other.
pub open spec fn swept(g: Graph, data: Seq<DataEntry>, items: Seq<(Uuid, Uuid)>) -> Swept
    decreases items.len(),
{
    if items.len() == 0 {
        Swept {
            graph: g,
            data,
            nodes: Seq::empty(),
            detached: Seq::empty(),
            edges: Seq::empty(),
        }
    } else {
        let s = swept(g, data, items.drop_last());
        let key = item_key(items.last());
        Swept {
            graph: graph_without(s.graph, key),
            data: s.data.filter(data_other_than(simple_text(items.last().0.value))),
            nodes: s.nodes + lone_nodes(s.graph.nodes, key),
            detached: s.detached + node_ids(shared_nodes(s.graph.nodes, key)),
            edges: s.edges + lone_edges(s.graph.edges, key),
        }
    }
}

/// Identifiers by the vector table that holds them.
pub open spec fn id_groups(groups: Map<Seq<char>, Seq<String>>) -> Map<Seq<char>, Seq<Seq<char>>> {
    groups.map_values(|ids: Seq<String>| views(ids))
}

/// One identifier put under each of the tables.
pub open spec fn under_each(
    groups: Map<Seq<char>, Seq<Seq<char>>>,
    tables: Seq<Seq<char>>,
    id: Seq<char>,
) -> Map<Seq<char>, Seq<Seq<char>>>
    decreases tables.len(),
{
    if tables.len() == 0 {
        groups
    } else {
        with_item(under_each(groups, tables.drop_last(), id), tables.last(), id)
    }
}

/// Each of the identifiers put under one table.
pub open spec fn each_under(
    groups: Map<Seq<char>, Seq<Seq<char>>>,
    table: Seq<char>,
    ids: Seq<Seq<char>>,
) -> Map<Seq<char>, Seq<Seq<char>>>
    decreases ids.len(),
{
    if ids.len() == 0 {
        groups
    } else {
        with_item(each_under(groups, table, ids.drop_last()), table, ids.last())
    }
}

/// The vector rows that go with nodes.
pub open spec fn node_deletes(nodes: Seq<NodeRow>) -> Map<Seq<char>, Seq<Seq<char>>>
    decreases nodes.len(),
{
    if nodes.len() == 0 {
        Map::empty()
    } else {
        under_each(node_deletes(nodes.drop_last()), node_tables(nodes.last()), nodes.last().id)
    }
}

/// The relationships that edges name.
pub open spec fn named_rels(edges: Seq<EdgeRow>) -> Seq<Seq<char>>
    decreases edges.len(),
{
    if edges.len() == 0 {
        Seq::empty()
    } else {
        match edges.last().relationship_name {
            Some(r) => named_rels(edges.drop_last()).push(r),
            None => named_rels(edges.drop_last()),
        }
    }
}

/// Accepts the relationships that no edge has.
pub open spec fn unused_in(edges: Seq<EdgeRow>) -> spec_fn(Seq<char>) -> bool {
    |r: Seq<char>| !rel_names(edges).contains(r)
}

/// The relationships of edges that went which no edge that is left has.
pub open spec fn orphaned(gone: Seq<EdgeRow>, left: Seq<EdgeRow>) -> Seq<Seq<char>> {
    unique_of(named_rels(gone)).filter(unused_in(left))
}

/// The spellings of the identifiers of relationships.
pub open spec fn edge_type_ids(rels: Seq<Seq<char>>) -> Seq<Seq<char>> {
    rels.map_values(|r: Seq<char>| uuid_text(edge_type_id_of(r)))
}

/// The vector rows that go: those of the deleted nodes, and those of the
/// relationships that no edge has any more.
pub open spec fn vector_deletes_of(s: Swept) -> Map<Seq<char>, Seq<Seq<char>>> {
    each_under(
        node_deletes(s.nodes),
        "EdgeType_relationship_name"@,
        edge_type_ids(orphaned(s.edges, s.graph.edges)),
    )
}

proof fn viewing_keeps_items(groups: Map<Seq<char>, Seq<String>>, name: Seq<char>, item: String)
    ensures
        id_groups(with_item(groups, name, item)) == with_item(id_groups(groups), name, item@),
{
    let had = items_under(groups, name);
    assert(views(had.push(item)) =~= views(had).push(item@));
    assert(views(Seq::<String>::empty()) =~= Seq::<Seq<char>>::empty());
    assert(id_groups(with_item(groups, name, item)) =~= with_item(id_groups(groups), name, item@));
}

/// Puts the identifiers of deleted nodes under the tables that hold them.
fn add_node_deletes(groups: &mut Groups<String>, nodes: &[GraphNode])
    requires
        old(groups).valid(),
        old(groups)@ == Map::<Seq<char>, Seq<String>>::empty(),
    ensures
        final(groups).valid(),
        id_groups(final(groups)@) == node_deletes(node_views(nodes@)),
{
    let ghost all = node_views(nodes@);
    let mut i: usize = 0;
    assert(id_groups(groups@) =~= node_deletes(all.take(0)));
    while i < nodes.len()
        invariant
            i <= nodes@.len(),
            groups.valid(),
            all == node_views(nodes@),
            id_groups(groups@) == node_deletes(all.take(i as int)),
        decreases nodes@.len() - i,
    {
        let ghost before = id_groups(groups@);
        assert(all.take(i + 1).drop_last() =~= all.take(i as int));
        let tables = tables_for_node(&nodes[i]);
        let ghost names = views(tables@);
        let ghost id = all[i as int].id;
        let mut j: usize = 0;
        assert(names.take(0) =~= Seq::empty());
        while j < tables.len()
            invariant
                i < nodes@.len(),
                j <= tables@.len(),
                groups.valid(),
                names == views(tables@),
                id == nodes@[i as int].id@,
                id_groups(groups@) == under_each(before, names.take(j as int), id),
            decreases tables@.len() - j,
        {
            let ghost held = groups@;
            let item = owned(nodes[i].id.as_str());
            proof {
                assert(names.take(j + 1).drop_last() =~= names.take(j as int));
                viewing_keeps_items(held, names[j as int], item);
            }
            groups.add_item(tables[j].as_str(), item);
            j += 1;
        }
        assert(names.take(names.len() as int) =~= names);
        i += 1;
    }
    assert(all.take(all.len() as int) =~= all);
}

/// The relationships that edges name.
fn rels_named(edges: &[GraphEdge]) -> (r: Vec<String>)
    ensures
        views(r@) == named_rels(edge_views(edges@)),
{
    let ghost all = edge_views(edges@);
    let mut out: Vec<String> = Vec::new();
    let mut i: usize = 0;
    assert(views(out@) =~= named_rels(all.take(0)));
    while i < edges.len()
        invariant
            i <= edges@.len(),
            all == edge_views(edges@),
            views(out@) == named_rels(all.take(i as int)),
        decreases edges@.len() - i,
    {
        let ghost before = views(out@);
        assert(all.take(i + 1).drop_last() =~= all.take(i as int));
        match &edges[i].relationship_name {
            Some(rel) => {
                out.push(owned(rel.as_str()));
                assert(views(out@) =~= before.push(rel@));
            },
            None => {},
        }
        i += 1;
    }
    assert(all.take(all.len() as int) =~= all);
    out
}

/// Puts the identifiers of orphaned relationships under their table.
fn add_orphans(groups: &mut Groups<String>, gone: &[GraphEdge], graph: &GraphStore)
    requires
        old(groups).valid(),
    ensures
        final(groups).valid(),
        id_groups(final(groups)@) == each_under(
            id_groups(old(groups)@),
            "EdgeType_relationship_name"@,
            edge_type_ids(orphaned(edge_views(gone@), graph@.edges)),
        ),
{
    let ghost start = id_groups(groups@);
    let ghost table = "EdgeType_relationship_name"@;
    let deleted = rels_named(gone);
    let rels = unique(&deleted);
    let left = graph.surviving_relationship_names();
    let ghost all = views(rels@);
    let ghost p = unused_in(graph@.edges);
    proof {
        unique_keeps_each_once(rel_names(graph@.edges));
        filter_ends(all, p);
        assert(edge_type_ids(all.take(0).filter(p)) =~= Seq::empty());
    }
    let mut i: usize = 0;
    while i < rels.len()
        invariant
            i <= rels@.len(),
            groups.valid(),
            all == views(rels@),
            p == unused_in(graph@.edges),
            table == "EdgeType_relationship_name"@,
            forall|x: Seq<char>| #[trigger]
                views(left@).contains(x) <==> rel_names(graph@.edges).contains(x),
            id_groups(groups@) == each_under(
                start,
                table,
                edge_type_ids(all.take(i as int).filter(p)),
            ),
        decreases rels@.len() - i,
    {
        let ghost kept = all.take(i as int).filter(p);
        proof {
            filter_step(all, i as int, p);
        }
        let used = has(&left, rels[i].as_str());
        if !used {
            let id = edge_type_id(rels[i].as_str()).to_string();
            let ghost held = groups@;
            proof {
                assert(edge_type_ids(kept.push(all[i as int])) =~= edge_type_ids(kept).push(id@));
                assert(edge_type_ids(kept).push(id@).drop_last() =~= edge_type_ids(kept));
                viewing_keeps_items(held, table, id);
            }
            groups.add_item("EdgeType_relationship_name", id);
        }
        i += 1;
    }
    proof {
        filter_ends(all, p);
    }
}

/// What a forget did, and the vector rows that are still to be deleted.
pub struct Forgotten {
    pub report: ForgetReport,
    /// Identifiers by vector table, the tables ascending.
    pub vector_deletes: Vec<(String, Vec<String>)>,
}

/// What went when data items were forgotten.
struct Sweep {
    nodes: Vec<GraphNode>,
    detached: Vec<String>,
    edges: Vec<GraphEdge>,
}

impl Sweep {
    /// What went is what `s` says.
    spec fn is(&self, s: Swept) -> bool {
        &&& node_views(self.nodes@) == s.nodes
        &&& views(self.detached@) == s.detached
        &&& edge_views(self.edges@) == s.edges
    }

    /// Adds what forgetting one more data item took away.
    fn add_part(&mut self, part: Split)
        ensures
            node_views(final(self).nodes@) == node_views(old(self).nodes@) + node_views(
                part.lone_nodes@,
            ),
            views(final(self).detached@) == views(old(self).detached@) + views(part.shared_ids@),
            edge_views(final(self).edges@) == edge_views(old(self).edges@) + edge_views(
                part.lone_edges@,
            ),
    {
        let ghost gone = part;
        let mut part = part;
        self.nodes.append(&mut part.lone_nodes);
        self.detached.append(&mut part.shared_ids);
        self.edges.append(&mut part.lone_edges);
        proof {
            assert(node_views(self.nodes@) =~= node_views(old(self).nodes@) + node_views(
                gone.lone_nodes@,
            ));
            assert(views(self.detached@) =~= views(old(self).detached@) + views(gone.shared_ids@));
            assert(edge_views(self.edges@) =~= edge_views(old(self).edges@) + edge_views(
                gone.lone_edges@,
            ));
        }
    }
}

/// Forgets data items one after the other.
#[verifier::spinoff_prover]
fn sweep(
    items: &Vec<(Uuid, Uuid)>,
    graph: &mut GraphStore,
    relational: &mut RelationalStore,
) -> (r: Sweep)
    requires
        old(graph).valid(),
        old(relational).valid(),
    ensures
        final(graph).valid(),
        final(relational).valid(),
        ({
            let s = swept(old(graph)@, old(relational)@.data, items@);
            &&& final(graph)@ == s.graph
            &&& final(relational)@ == (Relations { data: s.data, ..old(relational)@ })
            &&& r.is(s)
        }),
{
    let ghost g = graph@;
    let ghost rel = relational@;
    let ghost list = items@;
    let mut out = Sweep { nodes: Vec::new(), detached: Vec::new(), edges: Vec::new() };
    let mut i: usize = 0;
    proof {
        let s = swept(g, rel.data, list.take(0));
        assert(node_views(out.nodes@) =~= s.nodes);
        assert(views(out.detached@) =~= s.detached);
        assert(edge_views(out.edges@) =~= s.edges);
    }
    while i < items.len()
        invariant
            i <= items@.len(),
            list == items@,
            graph.valid(),
            relational.valid(),
            relational@ == (Relations {
                data: swept(g, rel.data, list.take(i as int)).data,
                ..rel
            }),
            graph@ == swept(g, rel.data, list.take(i as int)).graph,
            out.is(swept(g, rel.data, list.take(i as int))),
        decreases items@.len() - i,
    {
        assert(list.take(i + 1).drop_last() =~= list.take(i as int));
        let (data_id, dataset_id) = items[i];
        let dataset_text = dataset_id.to_string();
        let data_text = data_id.to_string();
        let key = source_ref(dataset_text.as_str(), data_text.as_str());
        let part = release(graph, key.as_str());
        relational.delete_data(data_id);
        out.add_part(part);
        i += 1;
    }
    assert(list.take(list.len() as int) =~= list);
    out
}

/// Forgets what a target stands for: takes its data items out of the graph and
/// out of the metadata, and tells which vector rows go with them. The datasets
/// themselves go once those rows are deleted, see [`finish_forget`].
#[verifier::spinoff_prover]
pub fn forget(
    target: &ForgetTarget,
    graph: &mut GraphStore,
    relational: &mut RelationalStore,
) -> (r: Result<Forgotten, ForgetError>)
    requires
        old(graph).valid(),
        old(relational).valid(),
    ensures
        final(graph).valid(),
        final(relational).valid(),
        match r {
            Ok(f) => items_of(old(relational)@, *target) matches Some(items) && {
                let s = swept(old(graph)@, old(relational)@.data, items);
                &&& final(graph)@ == s.graph
                &&& final(relational)@ == (Relations { data: s.data, ..old(relational)@ })
                &&& f.report.data_items == items.len()
                &&& f.report.nodes_deleted == s.nodes.len()
                &&& f.report.nodes_detached == s.detached.len()
                &&& f.report.edges_deleted == s.edges.len()
                &&& f.report.vectors_deleted == 0
                &&& f.report.datasets_deleted == 0
                &&& ascending(f.vector_deletes@)
                &&& id_groups(entry_map(f.vector_deletes@)) == vector_deletes_of(s)
            },
            Err(ForgetError::Relational(e)) => items_of(old(relational)@, *target) is None
                && is_items_error(old(relational)@, *target, e) && final(graph)@ == old(graph)@
                && final(relational)@ == old(relational)@,
            Err(_) => false,
        },
{
    let items = match target_items(target, relational) {
        Ok(items) => items,
        Err(e) => return Err(e),
    };
    let gone = sweep(&items, graph, relational);
    let mut groups: Groups<String> = Groups::new();
    add_node_deletes(&mut groups, &gone.nodes);
    add_orphans(&mut groups, &gone.edges, graph);
    let report = ForgetReport {
        data_items: items.len(),
        nodes_deleted: gone.nodes.len(),
        nodes_detached: gone.detached.len(),
        edges_deleted: gone.edges.len(),
        vectors_deleted: 0,
        datasets_deleted: 0,
    };
    Ok(Forgotten { report, vector_deletes: groups.into_entries() })
}

/// The datasets that are left once what a target stands for is forgotten.
pub open spec fn datasets_left(rows: Seq<DatasetEntry>, target: ForgetTarget) -> Seq<DatasetEntry> {
    match target {
        ForgetTarget::Dataset { dataset } => rows.filter(dataset_other_than(dataset)),
        ForgetTarget::Everything => Seq::empty(),
        ForgetTarget::DataItem { .. } => rows,
    }
}

/// A dataset that is the only one of its name and of its identifier may be told
/// by either: the same data items are forgotten, and the same datasets are left.
pub proof fn name_and_id_tell_alike(r: Relations, name: String, id: Uuid, data_id: Uuid)
    requires
        forall|i: int|
            0 <= i < r.datasets.len() ==> ((#[trigger] r.datasets[i]).name == Some(name@)
                <==> stored_uuid(r.datasets[i].id) == Some(id.value as int)),
    ensures
        ({
            let by_name = ForgetTarget::Dataset { dataset: DatasetKey::Name(name) };
            let by_id = ForgetTarget::Dataset { dataset: DatasetKey::Id(id) };
            &&& items_of(r, by_name) == items_of(r, by_id)
            &&& datasets_left(r.datasets, by_name) == datasets_left(r.datasets, by_id)
        }),
        items_of(
            r,
            (ForgetTarget::DataItem { dataset: DatasetKey::Name(name), data_id }),
        ) == items_of(r, (ForgetTarget::DataItem { dataset: DatasetKey::Id(id), data_id })),
{
    let by_name = DatasetKey::Name(name);
    let by_id = DatasetKey::Id(id);
    dataset_at_is_first(r.datasets, by_name);
    dataset_at_is_first(r.datasets, by_id);
    assert forall|i: int| 0 <= i < r.datasets.len() implies told_by(
        #[trigger] r.datasets[i],
        by_name,
    ) == told_by(r.datasets[i], by_id) by {}
    match (dataset_at(r.datasets, by_name), dataset_at(r.datasets, by_id)) {
        (Some(i), Some(j)) => {
            assert(told_by(r.datasets[i], by_id));
            assert(told_by(r.datasets[j], by_name));
            assert(i == j);
        },
        (Some(i), None) => {
            assert(told_by(r.datasets[i], by_id));
        },
        (None, Some(j)) => {
            assert(told_by(r.datasets[j], by_name));
        },
        (None, None) => {},
    }
    filters_agree(r.datasets, dataset_other_than(by_name), dataset_other_than(by_id));
}

/// Ends a forget whose vector rows were deleted: drops the datasets that the
/// target stands for, and completes the report.
pub fn finish_forget(
    target: &ForgetTarget,
    relational: &mut RelationalStore,
    report: ForgetReport,
    vectors_deleted: usize,
) -> (r: ForgetReport)
    requires
        old(relational).valid(),
    ensures
        final(relational).valid(),
        final(relational)@ == (Relations {
            datasets: datasets_left(old(relational)@.datasets, *target),
            ..old(relational)@
        }),
        r == (ForgetReport {
            vectors_deleted,
            datasets_deleted: match *target {
                ForgetTarget::Dataset { .. } => 1,
                ForgetTarget::Everything => r.datasets_deleted,
                ForgetTarget::DataItem { .. } => report.datasets_deleted,
            },
            ..report
        }),
        *target is Everything ==> r.datasets_deleted == old(relational)@.datasets.len(),
{
    let datasets_deleted: usize = match target {
        ForgetTarget::Dataset { dataset } => {
            relational.delete_dataset_at(dataset);
            1
        },
        ForgetTarget::Everything => relational.delete_all_datasets(),
        ForgetTarget::DataItem { .. } => report.datasets_deleted,
    };
    ForgetReport {
        data_items: report.data_items,
        nodes_deleted: report.nodes_deleted,
        nodes_detached: report.nodes_detached,
        edges_deleted: report.edges_deleted,
        vectors_deleted,
        datasets_deleted,
    }
}

} // verus!
