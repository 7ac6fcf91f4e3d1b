//! What is forgotten, and what stays.

use vstd::prelude::*;

use crate::forget::{
    datasets_left, each_under, item_key, items_in, items_in_all, items_of, lone_nodes, named_rels,
    node_deletes, node_stays, node_tables, node_unowned, orphaned, swept, texts_of, under_each,
    vector_deletes_of, ForgetTarget, Swept,
};
use crate::ingest::ids::edge_type_id_of;
use crate::json::{member, parsed_json, Json};
use crate::lists::{filter_members, filters_agree};
use crate::provenance::{entry_is_plain, lone_list, shared_list};
use crate::storage::dashless::{stored_reads_back, stored_uuid};
use crate::storage::graph::{edge_goes, edge_stays, node_from, EdgeRow, Graph, NodeRow};
use crate::storage::groups::items_under;
use crate::storage::refs::sole_owner_iff_counts_agree;
use crate::storage::relational::{
    data_in, data_other_than, dataset_at_is_first, dataset_other_than, DataEntry, DatasetEntry,
    DatasetKey, Relations,
};
use crate::text::{unique_keeps_each_once, unique_of};
use crate::uid::{simple_text, uuid_text, Uuid};

verus! {

// ---------------------------------------------------------------------------
// Which data items a target stands for
// ---------------------------------------------------------------------------

proof fn rows_are_items(data: Seq<DataEntry>, dataset: Uuid, items: Seq<(Uuid, Uuid)>, j: int)
    requires
        items_in(data, dataset) == Some(items),
        0 <= j < data.len(),
        data[j].dataset_id == Some(simple_text(dataset.value)),
    ensures
        stored_uuid(data[j].id) is Some,
        items.contains((Uuid { value: stored_uuid(data[j].id)->0 as u128 }, dataset)),
{
    let pred = data_in(simple_text(dataset.value));
    let rows = data.filter(pred);
    filter_members(data, pred);
    assert(data.contains(data[j]));
    assert(rows.contains(data[j]));
    let k = choose|k: int| 0 <= k < rows.len() && rows[k] == data[j];
    assert(stored_uuid(rows[k].id) is Some);
    assert(items[k] == (Uuid { value: stored_uuid(data[j].id)->0 as u128 }, dataset));
}

proof fn items_are_rows(data: Seq<DataEntry>, dataset: Uuid, items: Seq<(Uuid, Uuid)>, m: int) -> (
    j: int)
    requires
        items_in(data, dataset) == Some(items),
        0 <= m < items.len(),
    ensures
        items[m].1 == dataset,
        0 <= j < data.len(),
        data[j].dataset_id == Some(simple_text(dataset.value)),
        stored_uuid(data[j].id) is Some,
        items[m].0.value == stored_uuid(data[j].id)->0 as u128,
{
    let pred = data_in(simple_text(dataset.value));
    let rows = data.filter(pred);
    filter_members(data, pred);
    assert(stored_uuid(rows[m].id) is Some);
    assert(rows.contains(rows[m]));
    choose|j: int| 0 <= j < data.len() && data[j] == rows[m]
}

proof fn items_add_up(data: Seq<DataEntry>, datasets: Seq<Uuid>, items: Seq<(Uuid, Uuid)>)
    requires
        items_in_all(data, datasets) == Some(items),
    ensures
        forall|k: int|
            0 <= k < datasets.len() ==> items_in(data, #[trigger] datasets[k]) is Some && forall|
                x: (Uuid, Uuid),
            | #[trigger]
                items_in(data, datasets[k])->0.contains(x) ==> items.contains(x),
        forall|x: (Uuid, Uuid)| #[trigger]
            items.contains(x) ==> exists|k: int|
                0 <= k < datasets.len() && items_in(data, #[trigger] datasets[k])->0.contains(x),
    decreases datasets.len(),
{
    if datasets.len() > 0 {
        let head = datasets.drop_last();
        let before = items_in_all(data, head)->0;
        let more = items_in(data, datasets.last())->0;
        items_add_up(data, head, before);
        assert(items == before + more);
        assert forall|x: (Uuid, Uuid)| before.contains(x) || more.contains(x) implies #[trigger] items.contains(
            x,
        ) by {
            if before.contains(x) {
                let j = choose|j: int| 0 <= j < before.len() && before[j] == x;
                assert(items[j] == x);
            } else {
                let j = choose|j: int| 0 <= j < more.len() && more[j] == x;
                assert(items[before.len() + j] == x);
            }
        }
        assert forall|k: int| 0 <= k < datasets.len() implies items_in(
            data,
            #[trigger] datasets[k],
        ) is Some && forall|x: (Uuid, Uuid)| #[trigger]
            items_in(data, datasets[k])->0.contains(x) ==> items.contains(x) by {
            if k < head.len() {
                assert(head[k] == datasets[k]);
            }
        }
        assert forall|x: (Uuid, Uuid)| #[trigger] items.contains(x) implies exists|k: int|
            0 <= k < datasets.len() && items_in(data, #[trigger] datasets[k])->0.contains(x) by {
            let j = choose|j: int| 0 <= j < items.len() && items[j] == x;
            if j < before.len() {
                assert(before[j] == x);
                assert(before.contains(x));
                let k = choose|k: int|
                    0 <= k < head.len() && items_in(data, #[trigger] head[k])->0.contains(x);
                assert(datasets[k] == head[k]);
            } else {
                assert(more[j - before.len()] == x);
                assert(items_in(data, datasets[datasets.len() - 1])->0.contains(x));
            }
        }
    }
}

/// Forgetting everything forgets every data item of every dataset: the row with
/// the identifier `w` in the dataset with the identifier `v` is among them.
pub proof fn everything_is_every_item(
    r: Relations,
    items: Seq<(Uuid, Uuid)>,
    k: int,
    v: u128,
    j: int,
    w: u128,
)
    requires
        items_of(r, ForgetTarget::Everything) == Some(items),
        0 <= k < r.datasets.len(),
        stored_uuid(r.datasets[k].id) == Some(v as int),
        0 <= j < r.data.len(),
        r.data[j].dataset_id == Some(simple_text(v)),
        stored_uuid(r.data[j].id) == Some(w as int),
    ensures
        items.contains((Uuid { value: w }, Uuid { value: v })),
{
    let ids = r.datasets.map_values(|d: DatasetEntry| crate::forget::stored_id(d.id));
    items_add_up(r.data, ids, items);
    assert(ids[k] == Uuid { value: v });
    rows_are_items(r.data, ids[k], items_in(r.data, ids[k])->0, j);
    assert(items_in(r.data, ids[k])->0.contains((Uuid { value: w }, ids[k])));
}

/// Forgetting everything forgets data items of listed datasets alone.
pub proof fn everything_is_no_more(r: Relations, items: Seq<(Uuid, Uuid)>, m: int)
    requires
        items_of(r, ForgetTarget::Everything) == Some(items),
        0 <= m < items.len(),
    ensures
        exists|k: int, j: int|
            #![trigger r.datasets[k], r.data[j]]
            0 <= k < r.datasets.len() && 0 <= j < r.data.len() && stored_uuid(r.datasets[k].id)
                is Some && items[m].1.value == stored_uuid(r.datasets[k].id)->0 as u128
                && r.data[j].dataset_id == Some(simple_text(items[m].1.value)) && stored_uuid(
                r.data[j].id,
            ) is Some && items[m].0.value == stored_uuid(r.data[j].id)->0 as u128,
{
    let ids = r.datasets.map_values(|d: DatasetEntry| crate::forget::stored_id(d.id));
    items_add_up(r.data, ids, items);
    assert(items.contains(items[m]));
    let k = choose|k: int|
        0 <= k < ids.len() && items_in(r.data, #[trigger] ids[k])->0.contains(items[m]);
    let some = items_in(r.data, ids[k])->0;
    let i = choose|i: int| 0 <= i < some.len() && some[i] == items[m];
    let j = items_are_rows(r.data, ids[k], some, i);
    assert(r.datasets[k].id == r.datasets[k].id && r.data[j].id == r.data[j].id);
}

/// `key` tells the dataset at `k`, and none before it: by its name or by its
/// identifier.
pub open spec fn tells(rows: Seq<DatasetEntry>, key: DatasetKey, k: int) -> bool {
    &&& 0 <= k < rows.len()
    &&& match key {
        DatasetKey::Name(name) => rows[k].name == Some(name@) && forall|j: int|
            0 <= j < k ==> (#[trigger] rows[j]).name != Some(name@),
        DatasetKey::Id(id) => stored_uuid(rows[k].id) == Some(id.value as int) && forall|j: int|
            0 <= j < k ==> stored_uuid((#[trigger] rows[j]).id) != Some(id.value as int),
    }
}

proof fn told_dataset(r: Relations, key: DatasetKey, k: int, v: u128)
    requires
        tells(r.datasets, key, k),
        stored_uuid(r.datasets[k].id) == Some(v as int),
    ensures
        crate::forget::dataset_named(r, key) == Some(Uuid { value: v }),
{
    dataset_at_is_first(r.datasets, key);
    let found = crate::storage::relational::dataset_at(r.datasets, key);
    if let Some(i) = found {
        if i < k {
            assert(r.datasets[i].name == r.datasets[i].name);
        }
        if k < i {
            assert(!crate::storage::relational::told_by(r.datasets[k], key));
        }
    } else {
        assert(!crate::storage::relational::told_by(r.datasets[k], key));
    }
}

/// Forgetting a dataset forgets every data item of the dataset that the key tells.
pub proof fn dataset_is_all_its_items(
    r: Relations,
    key: DatasetKey,
    items: Seq<(Uuid, Uuid)>,
    k: int,
    v: u128,
    j: int,
)
    requires
        items_of(r, (ForgetTarget::Dataset { dataset: key })) == Some(items),
        tells(r.datasets, key, k),
        stored_uuid(r.datasets[k].id) == Some(v as int),
        0 <= j < r.data.len(),
        r.data[j].dataset_id == Some(simple_text(v)),
    ensures
        stored_uuid(r.data[j].id) is Some,
        items.contains((Uuid { value: stored_uuid(r.data[j].id)->0 as u128 }, Uuid { value: v })),
{
    let id = Uuid { value: v };
    told_dataset(r, key, k, v);
    rows_are_items(r.data, id, items, j);
}

/// Forgetting a dataset forgets no data item of another.
pub proof fn dataset_is_only_its_items(
    r: Relations,
    key: DatasetKey,
    items: Seq<(Uuid, Uuid)>,
    k: int,
    v: u128,
    m: int,
) -> (j: int)
    requires
        items_of(r, (ForgetTarget::Dataset { dataset: key })) == Some(items),
        tells(r.datasets, key, k),
        stored_uuid(r.datasets[k].id) == Some(v as int),
        0 <= m < items.len(),
    ensures
        items[m].1 == (Uuid { value: v }),
        0 <= j < r.data.len(),
        r.data[j].dataset_id == Some(simple_text(v)),
        stored_uuid(r.data[j].id) is Some,
        items[m].0.value == stored_uuid(r.data[j].id)->0 as u128,
{
    let id = Uuid { value: v };
    told_dataset(r, key, k, v);
    items_are_rows(r.data, id, items, m)
}

/// Forgetting a data item forgets just that one, in the dataset that the key
/// tells.
pub proof fn data_item_is_itself(r: Relations, key: DatasetKey, data_id: Uuid, k: int, v: u128)
    requires
        tells(r.datasets, key, k),
        stored_uuid(r.datasets[k].id) == Some(v as int),
    ensures
        items_of(r, (ForgetTarget::DataItem { dataset: key, data_id })) == Some(
            seq![(data_id, Uuid { value: v })],
        ),
{
    told_dataset(r, key, k, v);
}

// ---------------------------------------------------------------------------
// The data rows
// ---------------------------------------------------------------------------

proof fn swept_rows_were_there(g: Graph, data: Seq<DataEntry>, items: Seq<(Uuid, Uuid)>)
    ensures
        forall|d: DataEntry| #[trigger]
            swept(g, data, items).data.contains(d) <==> data.contains(d) && forall|m: int|
                0 <= m < items.len() ==> simple_text((#[trigger] items[m]).0.value) != d.id,
    decreases items.len(),
{
    if items.len() > 0 {
        let head = items.drop_last();
        let before = swept(g, data, head).data;
        let pred = data_other_than(simple_text(items.last().0.value));
        swept_rows_were_there(g, data, head);
        filter_members(before, pred);
        assert forall|d: DataEntry| #[trigger]
            swept(g, data, items).data.contains(d) <==> data.contains(d) && forall|m: int|
                0 <= m < items.len() ==> simple_text((#[trigger] items[m]).0.value) != d.id by {
            assert(before.filter(pred).contains(d) <==> before.contains(d) && pred(d));
            assert(forall|m: int| 0 <= m < head.len() ==> head[m] == items[m]);
            if before.contains(d) && pred(d) {
                assert forall|m: int| 0 <= m < items.len() implies simple_text(
                    (#[trigger] items[m]).0.value,
                ) != d.id by {
                    if m < head.len() {
                        assert(simple_text(head[m].0.value) != d.id);
                    }
                }
            }
            if data.contains(d) && forall|m: int|
                0 <= m < items.len() ==> simple_text((#[trigger] items[m]).0.value) != d.id {
                assert forall|m: int| 0 <= m < head.len() implies simple_text(
                    (#[trigger] head[m]).0.value,
                ) != d.id by {
                    assert(simple_text(items[m].0.value) != d.id);
                }
                assert(simple_text(items[items.len() - 1].0.value) != d.id);
            }
        }
    }
}

/// The rows left are those that were there, but for those of the data items
/// forgotten.
pub proof fn other_rows_stay(g: Graph, data: Seq<DataEntry>, items: Seq<(Uuid, Uuid)>, d: DataEntry)
    ensures
        swept(g, data, items).data.contains(d) <==> data.contains(d) && forall|m: int|
            0 <= m < items.len() ==> simple_text((#[trigger] items[m]).0.value) != d.id,
{
    swept_rows_were_there(g, data, items);
}

/// Once everything is forgotten, no row of a listed dataset is left. Identifiers
/// are spelled as they are stored.
pub proof fn everything_leaves_no_row(
    g: Graph,
    r: Relations,
    items: Seq<(Uuid, Uuid)>,
    k: int,
    v: u128,
    i: int,
)
    requires
        items_of(r, ForgetTarget::Everything) == Some(items),
        0 <= k < r.datasets.len(),
        stored_uuid(r.datasets[k].id) == Some(v as int),
        forall|j: int|
            0 <= j < r.data.len() ==> exists|w: u128| (#[trigger] r.data[j]).id == simple_text(w),
        0 <= i < swept(g, r.data, items).data.len(),
    ensures
        swept(g, r.data, items).data[i].dataset_id != Some(simple_text(v)),
{
    let left = swept(g, r.data, items).data;
    swept_rows_were_there(g, r.data, items);
    assert(left.contains(left[i]));
    let j = choose|j: int| 0 <= j < r.data.len() && r.data[j] == left[i];
    assert(r.data[j].id == left[i].id);
    let w = choose|w: u128| r.data[j].id == simple_text(w);
    if left[i].dataset_id == Some(simple_text(v)) {
        stored_reads_back(w);
        everything_is_every_item(r, items, k, v, j, w);
        let m = choose|m: int|
            0 <= m < items.len() && items[m] == (Uuid { value: w }, Uuid { value: v });
        assert(simple_text(items[m].0.value) == left[i].id);
    }
}

/// What is left of the datasets: none where everything is forgotten, all where a
/// data item is, and where a dataset is, those that the key does not tell.
pub proof fn datasets_go_with_their_target(
    rows: Seq<DatasetEntry>,
    d: DatasetEntry,
    key: DatasetKey,
    data_id: Uuid,
)
    ensures
        datasets_left(rows, ForgetTarget::Everything).len() == 0,
        datasets_left(rows, (ForgetTarget::DataItem { dataset: key, data_id })) == rows,
        datasets_left(rows, (ForgetTarget::Dataset { dataset: key })).contains(d) <==> rows.contains(
            d,
        ) && match key {
            DatasetKey::Name(name) => d.name != Some(name@),
            DatasetKey::Id(id) => stored_uuid(d.id) != Some(id.value as int),
        },
{
    filter_members(rows, dataset_other_than(key));
}

// ---------------------------------------------------------------------------
// Counts
// ---------------------------------------------------------------------------

proof fn filters_part<A>(s: Seq<A>, p: spec_fn(A) -> bool, q: spec_fn(A) -> bool)
    requires
        forall|x: A| #[trigger] p(x) == !q(x),
    ensures
        s.filter(p).len() + s.filter(q).len() == s.len(),
    decreases s.len(),
{
    reveal(Seq::filter);
    if s.len() > 0 {
        filters_part(s.drop_last(), p, q);
        assert(p(s.last()) == !q(s.last()));
    }
}

/// What goes through two filters goes through the one that accepts what both accept.
pub proof fn filters_meet<A>(
    s: Seq<A>,
    p: spec_fn(A) -> bool,
    q: spec_fn(A) -> bool,
    both: spec_fn(A) -> bool,
)
    requires
        forall|x: A| #[trigger] both(x) == (p(x) && q(x)),
    ensures
        s.filter(p).filter(q) == s.filter(both),
    decreases s.len(),
{
    reveal(Seq::filter);
    if s.len() > 0 {
        filters_meet(s.drop_last(), p, q, both);
        assert(both(s.last()) == (p(s.last()) && q(s.last())));
        let head = s.drop_last().filter(p);
        if p(s.last()) {
            assert(head.push(s.last()).drop_last() =~= head);
        }
    }
}

/// What is reported deleted and what is left add up to what was there.
pub proof fn counts_add_up(g: Graph, data: Seq<DataEntry>, items: Seq<(Uuid, Uuid)>)
    ensures
        swept(g, data, items).nodes.len() + swept(g, data, items).graph.nodes.len()
            == g.nodes.len(),
        swept(g, data, items).edges.len() + swept(g, data, items).graph.edges.len()
            == g.edges.len(),
        swept(g, data, items).graph.metadata == g.metadata,
    decreases items.len(),
{
    if items.len() > 0 {
        counts_add_up(g, data, items.drop_last());
        let s = swept(g, data, items.drop_last()).graph;
        let key = item_key(items.last());
        let goes = |n: NodeRow| node_from(key)(n) && node_unowned(key)(n);
        filters_meet(s.nodes, node_from(key), node_unowned(key), goes);
        filters_part(s.nodes, node_stays(key), goes);
        filters_part(s.edges, edge_stays(key), edge_goes(key));
    }
}

/// Every node and every edge that goes was there, but for the entries that
/// earlier data items took with them.
pub proof fn what_goes_was_there(g: Graph, data: Seq<DataEntry>, items: Seq<(Uuid, Uuid)>)
    ensures
        forall|n: NodeRow| #[trigger]
            swept(g, data, items).nodes.contains(n) ==> exists|i: int|
                0 <= i < g.nodes.len() && (#[trigger] g.nodes[i]) == (NodeRow {
                    source_ref_keys: g.nodes[i].source_ref_keys,
                    ..n
                }),
        forall|n: NodeRow| #[trigger]
            swept(g, data, items).graph.nodes.contains(n) ==> exists|i: int|
                0 <= i < g.nodes.len() && (#[trigger] g.nodes[i]) == (NodeRow {
                    source_ref_keys: g.nodes[i].source_ref_keys,
                    ..n
                }),
    decreases items.len(),
{
    if items.len() > 0 {
        let head = items.drop_last();
        what_goes_was_there(g, data, head);
        let before = swept(g, data, head);
        let after = swept(g, data, items);
        let key = item_key(items.last());
        let old = before.graph.nodes;
        let lone = lone_nodes(old, key);
        filter_members(old, node_from(key));
        filter_members(old.filter(node_from(key)), node_unowned(key));
        filter_members(old, node_stays(key));
        assert forall|n: NodeRow| #[trigger] after.nodes.contains(n) implies exists|i: int|
            0 <= i < g.nodes.len() && (#[trigger] g.nodes[i]) == (NodeRow {
                source_ref_keys: g.nodes[i].source_ref_keys,
                ..n
            }) by {
            let k = choose|k: int| 0 <= k < after.nodes.len() && after.nodes[k] == n;
            if k < before.nodes.len() {
                assert(before.nodes[k] == n);
                assert(before.nodes.contains(n));
            } else {
                assert(lone[k - before.nodes.len()] == n);
                assert(lone.contains(n));
                assert(old.contains(n));
            }
        }
        assert forall|n: NodeRow| #[trigger] after.graph.nodes.contains(n) implies exists|i: int|
            0 <= i < g.nodes.len() && (#[trigger] g.nodes[i]) == (NodeRow {
                source_ref_keys: g.nodes[i].source_ref_keys,
                ..n
            }) by {
            let kept = old.filter(node_stays(key));
            let k = choose|k: int| 0 <= k < after.graph.nodes.len() && after.graph.nodes[k] == n;
            assert(kept.contains(kept[k]));
            assert(old.contains(kept[k]));
            let i = choose|i: int|
                0 <= i < g.nodes.len() && (#[trigger] g.nodes[i]) == (NodeRow {
                    source_ref_keys: g.nodes[i].source_ref_keys,
                    ..kept[k]
                });
            assert(g.nodes[i] == (NodeRow { source_ref_keys: g.nodes[i].source_ref_keys, ..n }));
        }
    } else {
        assert forall|n: NodeRow| #[trigger]
            swept(g, data, items).graph.nodes.contains(n) implies exists|i: int|
            0 <= i < g.nodes.len() && (#[trigger] g.nodes[i]) == (NodeRow {
                source_ref_keys: g.nodes[i].source_ref_keys,
                ..n
            }) by {
            let i = choose|i: int| 0 <= i < g.nodes.len() && g.nodes[i] == n;
            assert(g.nodes[i] == (NodeRow { source_ref_keys: g.nodes[i].source_ref_keys, ..n }));
        }
    }
}

// ---------------------------------------------------------------------------
// The vector rows
// ---------------------------------------------------------------------------

/// A text of a list is among its texts.
pub proof fn texts_are_found(items: Seq<Json>, m: int, text: Seq<char>)
    requires
        0 <= m < items.len(),
        items[m] == Json::Text(text),
    ensures
        texts_of(items).contains(text),
    decreases items.len(),
{
    if m == items.len() - 1 {
        assert(texts_of(items)[texts_of(items.drop_last()).len() as int] == text);
    } else {
        texts_are_found(items.drop_last(), m, text);
        let before = texts_of(items.drop_last());
        let k = choose|k: int| 0 <= k < before.len() && before[k] == text;
        assert(texts_of(items)[k] == text);
    }
}

/// The node names the index field `field` in its properties: they spell an object
/// with a list of index fields in its metadata, and the field is one of the list.
pub open spec fn indexes(n: NodeRow, field: Seq<char>) -> bool {
    &&& n.properties is Some
    &&& parsed_json(n.properties->0) matches Some(doc) && member(doc, "metadata"@) matches Some(
        metadata,
    ) && member(metadata, "index_fields"@) matches Some(Json::List(items)) && items.contains(
        Json::Text(field),
    )
}

/// The vector tables of a node hold that of its type and each of its index fields.
pub proof fn indexed_tables(n: NodeRow, type_: Seq<char>, field: Seq<char>)
    requires
        n.type_ == Some(type_),
        indexes(n, field),
    ensures
        node_tables(n).contains(type_ + "_"@ + field),
{
    let doc = parsed_json(n.properties->0)->0;
    let metadata = member(doc, "metadata"@)->0;
    let items = member(metadata, "index_fields"@)->0->List_0;
    let m = choose|m: int| 0 <= m < items.len() && items[m] == Json::Text(field);
    texts_are_found(items, m, field);
    let fields = texts_of(items);
    let k = choose|k: int| 0 <= k < fields.len() && fields[k] == field;
    assert(node_tables(n)[k] == type_ + "_"@ + field);
}

proof fn put_under_each(
    groups: Map<Seq<char>, Seq<Seq<char>>>,
    tables: Seq<Seq<char>>,
    id: Seq<char>,
    table: Seq<char>,
    x: Seq<char>,
)
    ensures
        items_under(under_each(groups, tables, id), table).contains(x) <==> items_under(
            groups,
            table,
        ).contains(x) || (x == id && tables.contains(table)),
    decreases tables.len(),
{
    if tables.len() > 0 {
        let head = tables.drop_last();
        put_under_each(groups, head, id, table, x);
        let before = items_under(under_each(groups, head, id), table);
        assert(tables.contains(table) <==> head.contains(table) || table == tables.last()) by {
            assert(tables[tables.len() - 1] == tables.last());
            if head.contains(table) {
                let k = choose|k: int| 0 <= k < head.len() && head[k] == table;
                assert(tables[k] == table);
            }
            if tables.contains(table) {
                let k = choose|k: int| 0 <= k < tables.len() && tables[k] == table;
                if k < head.len() {
                    assert(head[k] == table);
                }
            }
        }
        pushed_holds(before, id, x);
    }
}

proof fn pushed_holds(s: Seq<Seq<char>>, id: Seq<char>, x: Seq<char>)
    ensures
        s.push(id).contains(x) <==> s.contains(x) || x == id,
{
    let after = s.push(id);
    assert(after[s.len() as int] == id);
    if s.contains(x) {
        let k = choose|k: int| 0 <= k < s.len() && s[k] == x;
        assert(after[k] == x);
    }
    if after.contains(x) {
        let k = choose|k: int| 0 <= k < after.len() && after[k] == x;
        if k < s.len() {
            assert(s[k] == x);
        }
    }
}

proof fn put_each_under(
    groups: Map<Seq<char>, Seq<Seq<char>>>,
    table: Seq<char>,
    ids: Seq<Seq<char>>,
    other: Seq<char>,
    x: Seq<char>,
)
    ensures
        items_under(each_under(groups, table, ids), other).contains(x) <==> items_under(
            groups,
            other,
        ).contains(x) || (other == table && ids.contains(x)),
    decreases ids.len(),
{
    if ids.len() > 0 {
        let head = ids.drop_last();
        put_each_under(groups, table, head, other, x);
        let before = items_under(each_under(groups, table, head), other);
        pushed_holds(before, ids.last(), x);
        pushed_holds(head, ids.last(), x);
        assert(head.push(ids.last()) =~= ids);
    }
}

proof fn rows_of_nodes(nodes: Seq<NodeRow>, table: Seq<char>, x: Seq<char>)
    ensures
        items_under(node_deletes(nodes), table).contains(x) <==> exists|k: int|
            0 <= k < nodes.len() && (#[trigger] nodes[k]).id == x && node_tables(
                nodes[k],
            ).contains(table),
    decreases nodes.len(),
{
    if nodes.len() > 0 {
        let head = nodes.drop_last();
        rows_of_nodes(head, table, x);
        put_under_each(node_deletes(head), node_tables(nodes.last()), nodes.last().id, table, x);
        assert(nodes[nodes.len() - 1] == nodes.last());
        if exists|k: int|
            0 <= k < head.len() && (#[trigger] head[k]).id == x && node_tables(head[k]).contains(
                table,
            ) {
            let k = choose|k: int|
                0 <= k < head.len() && (#[trigger] head[k]).id == x && node_tables(
                    head[k],
                ).contains(table);
            assert(nodes[k] == head[k]);
        }
        if exists|k: int|
            0 <= k < nodes.len() && (#[trigger] nodes[k]).id == x && node_tables(
                nodes[k],
            ).contains(table) {
            let k = choose|k: int|
                0 <= k < nodes.len() && (#[trigger] nodes[k]).id == x && node_tables(
                    nodes[k],
                ).contains(table);
            if k < head.len() {
                assert(nodes[k] == head[k]);
            }
        }
    }
}

/// With a node goes its row in the vector table of each of its index fields.
pub proof fn vectors_go_with_their_node(s: Swept, k: int, type_: Seq<char>, field: Seq<char>)
    requires
        0 <= k < s.nodes.len(),
        s.nodes[k].type_ == Some(type_),
        indexes(s.nodes[k], field),
    ensures
        vector_deletes_of(s).contains_key(type_ + "_"@ + field),
        vector_deletes_of(s)[type_ + "_"@ + field].contains(s.nodes[k].id),
{
    let table = type_ + "_"@ + field;
    let id = s.nodes[k].id;
    indexed_tables(s.nodes[k], type_, field);
    rows_of_nodes(s.nodes, table, id);
    let rels = crate::forget::edge_type_ids(orphaned(s.edges, s.graph.edges));
    put_each_under(node_deletes(s.nodes), "EdgeType_relationship_name"@, rels, table, id);
}

proof fn rels_are_named(edges: Seq<EdgeRow>, rel: Seq<char>)
    ensures
        named_rels(edges).contains(rel) <==> exists|k: int|
            0 <= k < edges.len() && (#[trigger] edges[k]).relationship_name == Some(rel),
    decreases edges.len(),
{
    if edges.len() > 0 {
        let head = edges.drop_last();
        rels_are_named(head, rel);
        assert(edges[edges.len() - 1] == edges.last());
        if edges.last().relationship_name is Some {
            pushed_holds(named_rels(head), edges.last().relationship_name->0, rel);
        }
        if exists|k: int| 0 <= k < head.len() && (#[trigger] head[k]).relationship_name == Some(rel) {
            let k = choose|k: int|
                0 <= k < head.len() && (#[trigger] head[k]).relationship_name == Some(rel);
            assert(edges[k] == head[k]);
        }
        if exists|k: int|
            0 <= k < edges.len() && (#[trigger] edges[k]).relationship_name == Some(rel) {
            let k = choose|k: int|
                0 <= k < edges.len() && (#[trigger] edges[k]).relationship_name == Some(rel);
            if k < head.len() {
                assert(edges[k] == head[k]);
            }
        }
    }
}

proof fn orphans_are(gone: Seq<EdgeRow>, left: Seq<EdgeRow>, rel: Seq<char>)
    ensures
        orphaned(gone, left).contains(rel) <==> (exists|k: int|
            0 <= k < gone.len() && (#[trigger] gone[k]).relationship_name == Some(rel))
            && !crate::storage::graph::rel_names(left).contains(rel),
{
    rels_are_named(gone, rel);
    unique_keeps_each_once(named_rels(gone));
    filter_members(unique_of(named_rels(gone)), crate::forget::unused_in(left));
}

/// A relationship of an edge that went, which no edge that is left has, loses its
/// vector row.
pub proof fn orphaned_relationship_goes(s: Swept, k: int, rel: Seq<char>)
    requires
        0 <= k < s.edges.len(),
        s.edges[k].relationship_name == Some(rel),
        rel.len() > 0,
        forall|j: int|
            0 <= j < s.graph.edges.len() ==> (#[trigger] s.graph.edges[j]).relationship_name != Some(
                rel,
            ),
    ensures
        vector_deletes_of(s).contains_key("EdgeType_relationship_name"@),
        vector_deletes_of(s)["EdgeType_relationship_name"@].contains(
            uuid_text(edge_type_id_of(rel)),
        ),
{
    let names = crate::storage::graph::rel_names(s.graph.edges);
    if names.contains(rel) {
        let j = choose|j: int| 0 <= j < names.len() && names[j] == rel;
        assert(s.graph.edges[j].relationship_name != Some(rel));
    }
    let gone = orphaned(s.edges, s.graph.edges);
    orphans_are(s.edges, s.graph.edges, rel);
    let i = choose|i: int| 0 <= i < gone.len() && gone[i] == rel;
    let rels = crate::forget::edge_type_ids(gone);
    assert(rels[i] == uuid_text(edge_type_id_of(rel)));
    put_each_under(
        node_deletes(s.nodes),
        "EdgeType_relationship_name"@,
        rels,
        "EdgeType_relationship_name"@,
        uuid_text(edge_type_id_of(rel)),
    );
}

/// No other vector row goes: each is that of a node that went, in a table of one
/// of its index fields, or that of a relationship that an edge had which went and
/// no edge has that is left.
pub proof fn no_other_vectors_go(s: Swept, table: Seq<char>, id: Seq<char>)
    requires
        vector_deletes_of(s).contains_key(table),
        vector_deletes_of(s)[table].contains(id),
    ensures
        (exists|k: int|
            0 <= k < s.nodes.len() && (#[trigger] s.nodes[k]).id == id && node_tables(
                s.nodes[k],
            ).contains(table)) || (table == "EdgeType_relationship_name"@ && exists|k: int|
            0 <= k < s.edges.len() && (#[trigger] s.edges[k]).relationship_name is Some && id
                == uuid_text(edge_type_id_of(s.edges[k].relationship_name->0)) && forall|j: int|
                0 <= j < s.graph.edges.len() ==> (#[trigger] s.graph.edges[j]).relationship_name
                    != s.edges[k].relationship_name),
{
    rows_of_nodes(s.nodes, table, id);
    let gone = orphaned(s.edges, s.graph.edges);
    let rels = crate::forget::edge_type_ids(gone);
    put_each_under(node_deletes(s.nodes), "EdgeType_relationship_name"@, rels, table, id);
    if table == "EdgeType_relationship_name"@ && rels.contains(id) {
        let i = choose|i: int| 0 <= i < rels.len() && rels[i] == id;
        let rel = gone[i];
        assert(gone.contains(rel));
        orphans_are(s.edges, s.graph.edges, rel);
        let k = choose|k: int|
            0 <= k < s.edges.len() && (#[trigger] s.edges[k]).relationship_name == Some(rel);
        let names = crate::storage::graph::rel_names(s.graph.edges);
        assert forall|j: int| 0 <= j < s.graph.edges.len() implies (
        #[trigger] s.graph.edges[j]).relationship_name != s.edges[k].relationship_name by {
            assert(names[j] == crate::storage::graph::rel_or_empty(s.graph.edges[j]));
        }
    }
}

/// The provenance entry of a data item spells its dataset and the item.
pub proof fn entries_spell_their_item(data: Uuid, dataset: Uuid)
    ensures
        item_key((data, dataset)) == "source_ref:v1:"@ + uuid_text(dataset.value) + ":"@
            + uuid_text(data.value),
{
}

// ---------------------------------------------------------------------------
// One data item
// ---------------------------------------------------------------------------

/// Of what a data item owns, the nodes and edges that no other owns go, and the
/// nodes that another owns too are detached; nothing else is counted with them.
pub proof fn what_goes_with_a_data_item(
    g: Graph,
    data: Seq<DataEntry>,
    items: Seq<(Uuid, Uuid)>,
    item: (Uuid, Uuid),
    n: NodeRow,
    e: EdgeRow,
    i: int,
)
    ensures
        ({
            let key = "source_ref:v1:"@ + uuid_text(item.1.value) + ":"@ + uuid_text(item.0.value);
            let before = swept(g, data, items);
            let after = swept(g, data, items.push(item));
            let nodes = after.nodes.skip(before.nodes.len() as int);
            let edges = after.edges.skip(before.edges.len() as int);
            let detached = after.detached.skip(before.detached.len() as int);
            &&& nodes.contains(n) <==> before.graph.nodes.contains(n) && lone_list(
                n.source_ref_keys,
                key,
            )
            &&& edges.contains(e) <==> before.graph.edges.contains(e) && lone_list(
                e.source_ref_keys,
                key,
            )
            &&& (0 <= i < before.graph.nodes.len() && shared_list(
                before.graph.nodes[i].source_ref_keys,
                key,
            ) ==> detached.contains(before.graph.nodes[i].id))
            &&& (0 <= i < detached.len() ==> exists|k: int|
                0 <= k < before.graph.nodes.len() && (#[trigger] before.graph.nodes[k]).id
                    == detached[i] && shared_list(before.graph.nodes[k].source_ref_keys, key))
        }),
{
    let key = item_key(item);
    let all = items.push(item);
    assert(all.drop_last() =~= items);
    assert(all.last() == item);
    entry_is_plain(item.1.value, item.0.value);
    let before = swept(g, data, items);
    let after = swept(g, data, all);
    let lone = lone_nodes(before.graph.nodes, key);
    let gone = crate::storage::graph::lone_edges(before.graph.edges, key);
    let shared = crate::forget::shared_nodes(before.graph.nodes, key);
    assert(after.nodes.skip(before.nodes.len() as int) =~= lone);
    assert(after.edges.skip(before.edges.len() as int) =~= gone);
    let detached = after.detached.skip(before.detached.len() as int);
    assert(detached =~= crate::forget::node_ids(shared));
    let mine = before.graph.nodes.filter(node_from(key));
    filter_members(before.graph.nodes, node_from(key));
    filter_members(mine, node_unowned(key));
    filter_members(mine, crate::forget::node_shared(key));
    filter_members(before.graph.edges, edge_goes(key));
    assert(lone.contains(n) <==> mine.contains(n) && node_unowned(key)(n));
    assert(mine.contains(n) <==> before.graph.nodes.contains(n) && node_from(key)(n));
    assert(gone.contains(e) <==> before.graph.edges.contains(e) && edge_goes(key)(e));
    sole_owner_iff_counts_agree(n.source_ref_keys, key);
    sole_owner_iff_counts_agree(e.source_ref_keys, key);
    if 0 <= i < before.graph.nodes.len() && shared_list(
        before.graph.nodes[i].source_ref_keys,
        key,
    ) {
        let m = before.graph.nodes[i];
        sole_owner_iff_counts_agree(m.source_ref_keys, key);
        assert(before.graph.nodes.contains(m));
        assert(mine.contains(m));
        assert(shared.contains(m));
        let k = choose|k: int| 0 <= k < shared.len() && shared[k] == m;
        assert(detached[k] == m.id);
    }
    if 0 <= i < detached.len() {
        let m = shared[i];
        assert(shared.contains(m));
        assert(mine.contains(m));
        assert(before.graph.nodes.contains(m));
        sole_owner_iff_counts_agree(m.source_ref_keys, key);
        let k = choose|k: int| 0 <= k < before.graph.nodes.len() && before.graph.nodes[k] == m;
        assert(before.graph.nodes[k].id == detached[i]);
    }
}

/// Accepts the nodes that the data item owns together with another.
pub open spec fn owned_with_others(key: Seq<char>) -> spec_fn(NodeRow) -> bool {
    |n: NodeRow| shared_list(n.source_ref_keys, key)
}

/// Accepts the nodes that the data item alone owns.
pub open spec fn owned_alone(key: Seq<char>) -> spec_fn(NodeRow) -> bool {
    |n: NodeRow| lone_list(n.source_ref_keys, key)
}

/// The nodes of a data item part into those that it owns alone and those that it owns
/// together with another.
pub proof fn owners_part_nodes(nodes: Seq<NodeRow>, key: Seq<char>)
    requires
        key.len() > 0,
    ensures
        lone_nodes(nodes, key) == nodes.filter(owned_alone(key)),
        crate::forget::shared_nodes(nodes, key) == nodes.filter(owned_with_others(key)),
{
    let from = node_from(key);
    let both = |n: NodeRow| from(n) && crate::forget::node_shared(key)(n);
    let sole = |n: NodeRow| from(n) && node_unowned(key)(n);
    filters_meet(nodes, from, crate::forget::node_shared(key), both);
    filters_meet(nodes, from, node_unowned(key), sole);
    assert forall|i: int| 0 <= i < nodes.len() implies both(#[trigger] nodes[i])
        == owned_with_others(key)(nodes[i]) by {
        sole_owner_iff_counts_agree(nodes[i].source_ref_keys, key);
    }
    assert forall|i: int| 0 <= i < nodes.len() implies sole(#[trigger] nodes[i]) == owned_alone(
        key,
    )(nodes[i]) by {
        sole_owner_iff_counts_agree(nodes[i].source_ref_keys, key);
    }
    filters_agree(nodes, both, owned_with_others(key));
    filters_agree(nodes, sole, owned_alone(key));
}

/// Forgetting one data item deletes as many nodes as it owns alone, and detaches as
/// many as it owns together with another.
pub proof fn one_item_parts_nodes(g: Graph, data: Seq<DataEntry>, data_id: Uuid, dataset: Uuid)
    ensures
        ({
            let s = swept(g, data, seq![(data_id, dataset)]);
            let key = "source_ref:v1:"@ + uuid_text(dataset.value) + ":"@ + uuid_text(
                data_id.value,
            );
            &&& s.nodes.len() == g.nodes.filter(owned_alone(key)).len()
            &&& s.detached.len() == g.nodes.filter(owned_with_others(key)).len()
        }),
{
    let items = seq![(data_id, dataset)];
    let key = item_key((data_id, dataset));
    entry_is_plain(dataset.value, data_id.value);
    assert(items.drop_last() =~= Seq::<(Uuid, Uuid)>::empty());
    assert(items.last() == (data_id, dataset));
    owners_part_nodes(g.nodes, key);
    let before = swept(g, data, items.drop_last());
    assert(before.graph == g && before.nodes.len() == 0 && before.detached.len() == 0);
    let s = swept(g, data, items);
    assert(s.nodes == before.nodes + lone_nodes(g.nodes, key));
    assert(s.nodes =~= lone_nodes(g.nodes, key));
    assert(s.detached =~= crate::forget::node_ids(crate::forget::shared_nodes(g.nodes, key)));
}

} // verus!
