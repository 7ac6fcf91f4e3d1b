//! What a repair brings back, and what it takes away.

use vstd::prelude::*;

use crate::doctor::{
    at_each, dump_node, edge_anchored, embeddable_of, healed, healed_is_exact, live_in, not_among,
    positions_of, repaired, restored_of, row_missing, stale_of, table_field_of,
};
use crate::forget::node_tables;
use crate::json::{member, parsed_json, Doc, Json};
use crate::laws::forgetting::{indexed_tables, indexes};
use crate::laws::remembering::{field_is_read, under};
use crate::laws::writing::nodes_written_are_there;
use crate::lists::filter_members;
use crate::pattern::starts_of;
use crate::storage::graph::{
    dedup_keeps_each_once, dedup_of, has_edge, has_node, same_edge, EdgeRow, Graph, NodeRow,
};
use crate::storage::groups::items_under;
use crate::storage::histogram::count_is_positive_iff_contained;
use crate::text::{unique_keeps_each_once, unique_of};

verus! {

// ---------------------------------------------------------------------------
// Nodes
// ---------------------------------------------------------------------------

/// The text that a row of a dump holds in a column.
pub open spec fn column(row: Json, key: Seq<char>) -> Option<Seq<char>> {
    match member(row, key) {
        Some(Json::Text(s)) => Some(s),
        _ => None,
    }
}

/// The node holds in each column what the row of the dump holds there.
pub open spec fn holds_columns(n: NodeRow, row: Json) -> bool {
    &&& Some(n.id) == column(row, "id"@)
    &&& n.name == column(row, "name"@)
    &&& n.type_ == column(row, "type"@)
    &&& n.created_at == column(row, "created_at"@)
    &&& n.updated_at == column(row, "updated_at"@)
    &&& n.properties == column(row, "properties"@)
    &&& n.source_ref_keys == column(row, "source_ref_keys"@)
    &&& n.source_dataset_ids == column(row, "source_dataset_ids"@)
    &&& n.source_run_ids == column(row, "source_run_ids"@)
    &&& n.source_run_refs == column(row, "source_run_refs"@)
}

/// A node that the graph lacks comes back from its last row in the dump, with what
/// that row holds in every column.
pub proof fn lost_node_comes_back(g: Graph, dump: Seq<Doc>, j: int, id: Seq<char>)
    requires
        0 <= j < dump.len(),
        column(dump[j]@, "id"@) == Some(id),
        forall|i: int| 0 <= i < g.nodes.len() ==> (#[trigger] g.nodes[i]).id != id,
        forall|i: int| j < i < dump.len() ==> column((#[trigger] dump[i])@, "id"@) != Some(id),
    ensures
        exists|i: int|
            0 <= i < repaired(g, dump).nodes.len() && holds_columns(
                #[trigger] repaired(g, dump).nodes[i],
                dump[j]@,
            ),
{
    let pred = row_missing(g.nodes);
    let rows = restored_of(g.nodes, dump);
    let n = dump_node(dump[j]@);
    assert(pred(dump[j]));
    let k = kept_at(dump, pred, j);
    assert(rows[k] == n);
    let kept = dump.filter(pred);
    assert forall|m: int| k < m < rows.len() implies (#[trigger] rows[m]).id != n.id by {
        let at = kept_from(dump, pred, j, k, m);
        assert(column(dump[at]@, "id"@) != Some(id));
        assert(kept[m] == dump[at]);
        assert(pred(dump[at]));
    }
    nodes_written_are_there(g.nodes, rows, n);
    let after = repaired(g, dump).nodes;
    let i = choose|i: int| 0 <= i < after.len() && after[i] == n;
    assert(holds_columns(after[i], dump[j]@));
}

/// Where an accepted element stands among those that a filter lets through.
proof fn kept_at<A>(s: Seq<A>, pred: spec_fn(A) -> bool, j: int) -> (k: int)
    requires
        0 <= j < s.len(),
        pred(s[j]),
    ensures
        0 <= k < s.filter(pred).len(),
        s.filter(pred)[k] == s[j],
        k == s.take(j).filter(pred).len(),
{
    crate::lists::filter_step(s, j, pred);
    crate::lists::prefix_of_filter(s, j + 1, pred);
    s.take(j).filter(pred).len() as int
}

/// What a filter lets through behind an element stood behind it before.
proof fn kept_from<A>(s: Seq<A>, pred: spec_fn(A) -> bool, j: int, k: int, m: int) -> (at: int)
    requires
        0 <= j < s.len(),
        pred(s[j]),
        k == s.take(j).filter(pred).len(),
        k < m < s.filter(pred).len(),
    ensures
        j < at < s.len(),
        s[at] == s.filter(pred)[m],
        pred(s[at]),
    decreases s.len(),
{
    reveal(Seq::filter);
    let head = s.drop_last();
    let last = s.len() - 1;
    if j == last {
        crate::lists::filter_step(s, j, pred);
        assert(s.take(j + 1) =~= s);
        last as int
    } else {
        assert(head.take(j) =~= s.take(j));
        if m < head.filter(pred).len() {
            kept_from(head, pred, j, k, m)
        } else {
            last as int
        }
    }
}

/// The nodes that were there stay as they were.
pub proof fn live_nodes_stay(g: Graph, dump: Seq<Doc>, n: NodeRow)
    requires
        g.nodes.contains(n),
    ensures
        repaired(g, dump).nodes.contains(n),
{
    let rows = restored_of(g.nodes, dump);
    filter_members(dump, row_missing(g.nodes));
    let i = choose|i: int| 0 <= i < g.nodes.len() && g.nodes[i] == n;
    assert forall|j: int| 0 <= j < rows.len() implies (#[trigger] rows[j]).id != n.id by {
        assert(row_missing(g.nodes)(dump.filter(row_missing(g.nodes))[j]));
        assert(g.nodes[i].id == n.id);
    }
    nodes_written_are_there(g.nodes, rows, n);
}

/// No node comes from elsewhere: each was there, or is that of a row of the dump
/// which the graph lacked.
pub proof fn nothing_else_comes_back(g: Graph, dump: Seq<Doc>, n: NodeRow)
    requires
        repaired(g, dump).nodes.contains(n),
    ensures
        g.nodes.contains(n) || (!has_node(g.nodes, n.id) && exists|j: int|
            0 <= j < dump.len() && holds_columns(n, (#[trigger] dump[j])@)),
{
    let rows = restored_of(g.nodes, dump);
    let kept = dump.filter(row_missing(g.nodes));
    filter_members(dump, row_missing(g.nodes));
    nodes_written_are_there(g.nodes, rows, n);
    if !g.nodes.contains(n) {
        let k = choose|k: int|
            0 <= k < rows.len() && #[trigger] rows[k] == n && forall|j: int|
                k < j < rows.len() ==> (#[trigger] rows[j]).id != n.id;
        assert(row_missing(g.nodes)(kept[k]));
        assert(dump.contains(kept[k]));
        let j = choose|j: int| 0 <= j < dump.len() && dump[j] == kept[k];
        assert(holds_columns(n, dump[j]@));
    }
}

/// The row of a dump that a node is written to.
pub open spec fn dumped(n: NodeRow) -> Json {
    Json::Object(
        seq![
            ("id"@, Json::Text(n.id)),
            ("name"@, crate::ingest::datapoints::text_or_null(n.name)),
            ("type"@, crate::ingest::datapoints::text_or_null(n.type_)),
            ("created_at"@, crate::ingest::datapoints::text_or_null(n.created_at)),
            ("updated_at"@, crate::ingest::datapoints::text_or_null(n.updated_at)),
            ("properties"@, crate::ingest::datapoints::text_or_null(n.properties)),
            ("source_ref_keys"@, crate::ingest::datapoints::text_or_null(n.source_ref_keys)),
            ("source_dataset_ids"@, crate::ingest::datapoints::text_or_null(n.source_dataset_ids)),
            ("source_run_ids"@, crate::ingest::datapoints::text_or_null(n.source_run_ids)),
            ("source_run_refs"@, crate::ingest::datapoints::text_or_null(n.source_run_refs)),
        ],
    )
}

proof fn columns_differ()
    ensures
        "id"@ != "name"@,
        "id"@ != "type"@,
        "id"@ != "created_at"@,
        "id"@ != "updated_at"@,
        "id"@ != "properties"@,
        "id"@ != "source_ref_keys"@,
        "id"@ != "source_dataset_ids"@,
        "id"@ != "source_run_ids"@,
        "id"@ != "source_run_refs"@,
        "name"@ != "type"@,
        "name"@ != "created_at"@,
        "name"@ != "updated_at"@,
        "name"@ != "properties"@,
        "name"@ != "source_ref_keys"@,
        "name"@ != "source_dataset_ids"@,
        "name"@ != "source_run_ids"@,
        "name"@ != "source_run_refs"@,
        "type"@ != "created_at"@,
        "type"@ != "updated_at"@,
        "type"@ != "properties"@,
        "type"@ != "source_ref_keys"@,
        "type"@ != "source_dataset_ids"@,
        "type"@ != "source_run_ids"@,
        "type"@ != "source_run_refs"@,
        "created_at"@ != "updated_at"@,
        "created_at"@ != "properties"@,
        "created_at"@ != "source_ref_keys"@,
        "created_at"@ != "source_dataset_ids"@,
        "created_at"@ != "source_run_ids"@,
        "created_at"@ != "source_run_refs"@,
        "updated_at"@ != "properties"@,
        "updated_at"@ != "source_ref_keys"@,
        "updated_at"@ != "source_dataset_ids"@,
        "updated_at"@ != "source_run_ids"@,
        "updated_at"@ != "source_run_refs"@,
        "properties"@ != "source_ref_keys"@,
        "properties"@ != "source_dataset_ids"@,
        "properties"@ != "source_run_ids"@,
        "properties"@ != "source_run_refs"@,
        "source_ref_keys"@ != "source_dataset_ids"@,
        "source_ref_keys"@ != "source_run_ids"@,
        "source_ref_keys"@ != "source_run_refs"@,
        "source_dataset_ids"@ != "source_run_ids"@,
        "source_dataset_ids"@ != "source_run_refs"@,
        "source_run_ids"@ != "source_run_refs"@,
{
    reveal_strlit("id");
    reveal_strlit("name");
    reveal_strlit("type");
    reveal_strlit("created_at");
    reveal_strlit("updated_at");
    reveal_strlit("properties");
    reveal_strlit("source_ref_keys");
    reveal_strlit("source_dataset_ids");
    reveal_strlit("source_run_ids");
    reveal_strlit("source_run_refs");
    assert("id"@.len() != "name"@.len());
    assert("id"@.len() != "type"@.len());
    assert("id"@.len() != "created_at"@.len());
    assert("id"@.len() != "updated_at"@.len());
    assert("id"@.len() != "properties"@.len());
    assert("id"@.len() != "source_ref_keys"@.len());
    assert("id"@.len() != "source_dataset_ids"@.len());
    assert("id"@.len() != "source_run_ids"@.len());
    assert("id"@.len() != "source_run_refs"@.len());
    assert("name"@[0] != "type"@[0]);
    assert("name"@.len() != "created_at"@.len());
    assert("name"@.len() != "updated_at"@.len());
    assert("name"@.len() != "properties"@.len());
    assert("name"@.len() != "source_ref_keys"@.len());
    assert("name"@.len() != "source_dataset_ids"@.len());
    assert("name"@.len() != "source_run_ids"@.len());
    assert("name"@.len() != "source_run_refs"@.len());
    assert("type"@.len() != "created_at"@.len());
    assert("type"@.len() != "updated_at"@.len());
    assert("type"@.len() != "properties"@.len());
    assert("type"@.len() != "source_ref_keys"@.len());
    assert("type"@.len() != "source_dataset_ids"@.len());
    assert("type"@.len() != "source_run_ids"@.len());
    assert("type"@.len() != "source_run_refs"@.len());
    assert("created_at"@[0] != "updated_at"@[0]);
    assert("created_at"@[0] != "properties"@[0]);
    assert("created_at"@.len() != "source_ref_keys"@.len());
    assert("created_at"@.len() != "source_dataset_ids"@.len());
    assert("created_at"@.len() != "source_run_ids"@.len());
    assert("created_at"@.len() != "source_run_refs"@.len());
    assert("updated_at"@[0] != "properties"@[0]);
    assert("updated_at"@.len() != "source_ref_keys"@.len());
    assert("updated_at"@.len() != "source_dataset_ids"@.len());
    assert("updated_at"@.len() != "source_run_ids"@.len());
    assert("updated_at"@.len() != "source_run_refs"@.len());
    assert("properties"@.len() != "source_ref_keys"@.len());
    assert("properties"@.len() != "source_dataset_ids"@.len());
    assert("properties"@.len() != "source_run_ids"@.len());
    assert("properties"@.len() != "source_run_refs"@.len());
    assert("source_ref_keys"@.len() != "source_dataset_ids"@.len());
    assert("source_ref_keys"@.len() != "source_run_ids"@.len());
    assert("source_ref_keys"@[8] != "source_run_refs"@[8]);
    assert("source_dataset_ids"@.len() != "source_run_ids"@.len());
    assert("source_dataset_ids"@.len() != "source_run_refs"@.len());
    assert("source_run_ids"@.len() != "source_run_refs"@.len());
}

/// A node written to a dump and restored from it is the same node.
pub proof fn dumped_node_is_the_same(n: NodeRow)
    ensures
        dump_node(dumped(n)) == n,
{
    columns_differ();
    let fields = dumped(n)->Object_0;
    field_is_read(fields, 0);
    field_is_read(fields, 1);
    field_is_read(fields, 2);
    field_is_read(fields, 3);
    field_is_read(fields, 4);
    field_is_read(fields, 5);
    field_is_read(fields, 6);
    field_is_read(fields, 7);
    field_is_read(fields, 8);
    field_is_read(fields, 9);
}

// ---------------------------------------------------------------------------
// Edges
// ---------------------------------------------------------------------------

/// Of the edges, each whose two ends are in the repaired graph is there once, and
/// every one there was.
pub proof fn sound_edges_stay(g: Graph, dump: Seq<Doc>, e: EdgeRow)
    ensures
        has_edge(repaired(g, dump).edges, e) <==> has_edge(g.edges, e) && has_node(
            repaired(g, dump).nodes,
            e.from_id,
        ) && has_node(repaired(g, dump).nodes, e.to_id),
        repaired(g, dump).edges.contains(e) ==> g.edges.contains(e),
{
    let nodes = repaired(g, dump).nodes;
    let once = dedup_of(g.edges);
    let left = repaired(g, dump).edges;
    dedup_keeps_each_once(g.edges);
    deduped_were_there(g.edges);
    filter_members(once, edge_anchored(nodes));
    if has_edge(left, e) {
        let i = choose|i: int| 0 <= i < left.len() && same_edge(#[trigger] left[i], e);
        assert(once.contains(left[i]));
        let k = choose|k: int| 0 <= k < once.len() && once[k] == left[i];
        assert(same_edge(once[k], e));
        assert(has_edge(once, e));
    }
    if has_edge(g.edges, e) && has_node(nodes, e.from_id) && has_node(nodes, e.to_id) {
        assert(has_edge(once, e));
        let k = choose|k: int| 0 <= k < once.len() && same_edge(#[trigger] once[k], e);
        assert(once.contains(once[k]));
        assert(left.contains(once[k]));
        let i = choose|i: int| 0 <= i < left.len() && left[i] == once[k];
        assert(same_edge(left[i], e));
    }
    if left.contains(e) {
        assert(once.contains(e));
    }
}

proof fn deduped_were_there(edges: Seq<EdgeRow>)
    ensures
        forall|e: EdgeRow| #[trigger] dedup_of(edges).contains(e) ==> edges.contains(e),
    decreases edges.len(),
{
    if edges.len() > 0 {
        let head = edges.drop_last();
        deduped_were_there(head);
        let before = dedup_of(head);
        let after = dedup_of(edges);
        assert forall|e: EdgeRow| #[trigger] after.contains(e) implies edges.contains(e) by {
            let k = choose|k: int| 0 <= k < after.len() && after[k] == e;
            if k < before.len() {
                assert(before[k] == e);
                assert(before.contains(e));
                assert(head.contains(e));
                let i = choose|i: int| 0 <= i < head.len() && head[i] == e;
                assert(edges[i] == e);
            } else {
                assert(edges[edges.len() - 1] == e);
            }
        }
    }
}

// ---------------------------------------------------------------------------
// Vector tables
// ---------------------------------------------------------------------------

proof fn pushed_at(s: Seq<usize>, at: usize, x: usize)
    ensures
        s.push(at).contains(x) <==> s.contains(x) || x == at,
{
    let after = s.push(at);
    assert(after[s.len() as int] == at);
    if s.contains(x) {
        let k = choose|k: int| 0 <= k < s.len() && s[k] == x;
        assert(after[k] == x);
    }
    if after.contains(x) {
        let k = choose|k: int| 0 <= k < after.len() && after[k] == x;
        if k < s.len() {
            assert(s[k] == x);
        }
    }
}

proof fn put_at_each(
    groups: Map<Seq<char>, Seq<usize>>,
    tables: Seq<Seq<char>>,
    at: usize,
    table: Seq<char>,
    x: usize,
)
    ensures
        items_under(at_each(groups, tables, at), table).contains(x) <==> items_under(
            groups,
            table,
        ).contains(x) || (x == at && tables.contains(table)),
    decreases tables.len(),
{
    if tables.len() > 0 {
        let head = tables.drop_last();
        put_at_each(groups, head, at, table, x);
        let before = items_under(at_each(groups, head, at), table);
        assert(tables.contains(table) <==> head.contains(table) || table == tables.last()) by {
            assert(tables[tables.len() - 1] == tables.last());
            if head.contains(table) {
                let k = choose|k: int| 0 <= k < head.len() && head[k] == table;
                assert(tables[k] == table);
            }
            if tables.contains(table) {
                let k = choose|k: int| 0 <= k < tables.len() && tables[k] == table;
                if k < head.len() {
                    assert(head[k] == table);
                }
            }
        }
        pushed_at(before, at, x);
    }
}

proof fn live_at(nodes: Seq<NodeRow>, table: Seq<char>, x: usize)
    requires
        nodes.len() <= usize::MAX,
    ensures
        items_under(live_in(nodes), table).contains(x) <==> x < nodes.len() && node_tables(
            nodes[x as int],
        ).contains(table),
    decreases nodes.len(),
{
    if nodes.len() > 0 {
        let head = nodes.drop_last();
        live_at(head, table, x);
        put_at_each(
            live_in(head),
            node_tables(nodes.last()),
            (nodes.len() - 1) as usize,
            table,
            x,
        );
        if x < head.len() {
            assert(head[x as int] == nodes[x as int]);
        }
    }
}

/// A node that names an index field is live in the table of its type and that
/// field, and where its row is missing it is embedded again.
pub proof fn missing_vector_is_added(
    nodes: Seq<NodeRow>,
    i: usize,
    type_: Seq<char>,
    field: Seq<char>,
    present: Seq<Seq<char>>,
)
    requires
        nodes.len() <= usize::MAX,
        i < nodes.len(),
        nodes[i as int].type_ == Some(type_),
        indexes(nodes[i as int], field),
    ensures
        ({
            let at = items_under(live_in(nodes), type_ + "_"@ + field);
            &&& at.contains(i)
            &&& positions_of(nodes, at, not_among(present)).contains(i) <==> !present.contains(
                nodes[i as int].id,
            )
        }),
{
    let at = items_under(live_in(nodes), type_ + "_"@ + field);
    indexed_tables(nodes[i as int], type_, field);
    live_at(nodes, type_ + "_"@ + field, i);
    let wanted = |k: usize| not_among(present)(nodes[k as int].id);
    filter_members(at, wanted);
    assert(positions_of(nodes, at, not_among(present)) =~= at.filter(wanted));
    assert(at.filter(wanted).contains(i) <==> at.contains(i) && wanted(i));
}

/// No other node is live in a table: each is one whose own tables hold it.
pub proof fn only_its_nodes_are_live(nodes: Seq<NodeRow>, table: Seq<char>, i: usize)
    requires
        nodes.len() <= usize::MAX,
    ensures
        items_under(live_in(nodes), table).contains(i) <==> i < nodes.len() && node_tables(
            nodes[i as int],
        ).contains(table),
{
    live_at(nodes, table, i);
}

/// What is purged from a table are the identifiers in it that no live node has,
/// each once.
pub proof fn stale_vectors_are_purged(
    present: Seq<Seq<char>>,
    live: Seq<Seq<char>>,
    id: Seq<char>,
)
    ensures
        stale_of(present, live).contains(id) <==> present.contains(id) && !live.contains(id),
        stale_of(present, live).no_duplicates(),
{
    unique_keeps_each_once(present);
    filter_members(unique_of(present), not_among(live));
    let once = unique_of(present);
    let stale = stale_of(present, live);
    assert forall|i: int, j: int| 0 <= i < j < stale.len() implies stale[i] != stale[j] by {
        crate::lists::filter_keeps_order(once, not_among(live), i, j);
        let (a, b) = choose|a: int, b: int|
            #![trigger once[a], once[b]]
            0 <= a < b < once.len() && once[a] == stale[i] && once[b] == stale[j];
        assert(once[a] != once[b]);
    }
}

/// A healed table holds the identifiers of the live nodes and no others.
pub proof fn healed_holds_the_live(
    present: Seq<Seq<char>>,
    live: Seq<Seq<char>>,
    id: Seq<char>,
)
    requires
        live.no_duplicates(),
    ensures
        healed(present, live).contains(id) <==> live.contains(id),
{
    healed_is_exact(present, live);
    count_is_positive_iff_contained(healed(present, live), id);
}

/// In the table of a type and a field, a node of that type is found by what it
/// holds there: its name, or the text under that field of its properties. A node
/// without one is found by nothing.
pub proof fn tables_hold_their_field(n: NodeRow, type_: Seq<char>, field: Seq<char>, doc: Json)
    ensures
        table_field_of(type_ + "_"@ + field, type_) == field,
        field == "name"@ ==> embeddable_of(n, field) == (match n.name {
            Some(s) => s,
            None => Seq::empty(),
        }),
        field != "name"@ && n.properties is Some && parsed_json(n.properties->0) == Some(doc)
            ==> embeddable_of(n, field) == (match column(doc, field) {
            Some(s) => s,
            None => Seq::empty(),
        }),
        field != "name"@ && n.properties is None ==> embeddable_of(n, field) == Seq::<
            char,
        >::empty(),
{
    let head = type_ + "_"@;
    let table = head + field;
    assert(table.subrange(0, head.len() as int) =~= head);
    assert(starts_of(table, head));
    assert(table.skip(head.len() as int) =~= field);
}

} // verus!
