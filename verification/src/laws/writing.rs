//! What the rows of the graph hold once something is written.

use vstd::prelude::*;

use crate::ingest::assemble::{
    edge_row_of, endpoint_label, fallback_text, name_of, with_edge_text, RawEdgeRow,
};
use crate::ingest::datapoints::{iso_text, node_row_of, DatapointRow};
use crate::json::{field_set_is_read, field_set_keeps_others, json_text, Json};
use crate::laws::remembering::under;
use crate::lists::filter_members;
use crate::pattern::{join_of, replace_char_of};
use crate::remember::{graph_with, new_edges, new_nodes};
use crate::storage::graph::{
    edge_index, edge_index_is_first, has_edge, has_node, node_index_is_first, node_other_than,
    put_edges, put_nodes, same_edge, EdgeRow, Graph, NodeRow,
};
use crate::storage::refs::list_text;
use crate::uid::{hex_digits, simple_text, uuid_text};

verus! {

// ---------------------------------------------------------------------------
// Nodes
// ---------------------------------------------------------------------------

/// What writing nodes leaves: the last row given for each identifier, and the rows
/// of the identifiers that none was given for. Nothing else.
pub proof fn nodes_written_are_there(nodes: Seq<NodeRow>, rows: Seq<NodeRow>, n: NodeRow)
    ensures
        put_nodes(nodes, rows).contains(n) <==> (exists|k: int|
            0 <= k < rows.len() && #[trigger] rows[k] == n && forall|j: int|
                k < j < rows.len() ==> (#[trigger] rows[j]).id != n.id) || (nodes.contains(n)
            && forall|j: int| 0 <= j < rows.len() ==> (#[trigger] rows[j]).id != n.id),
    decreases rows.len(),
{
    if rows.len() > 0 {
        let head = rows.drop_last();
        let last = rows.last();
        let before = put_nodes(nodes, head);
        let after = put_nodes(nodes, rows);
        nodes_written_are_there(nodes, head, n);
        let pred = node_other_than(last.id);
        filter_members(before, pred);
        let kept = before.filter(pred);
        assert(after == kept.push(last));
        assert(rows[rows.len() - 1] == last);
        assert(forall|j: int| 0 <= j < head.len() ==> #[trigger] head[j] == rows[j]);
        if kept.contains(n) {
            let i = choose|i: int| 0 <= i < kept.len() && kept[i] == n;
            assert(after[i] == n);
        }
        assert(after[kept.len() as int] == last);
        if after.contains(n) {
            let i = choose|i: int| 0 <= i < after.len() && after[i] == n;
            if i < kept.len() {
                assert(kept[i] == n);
                assert(kept.contains(n));
                assert(n.id != last.id);
                if exists|k: int|
                    0 <= k < head.len() && #[trigger] head[k] == n && forall|j: int|
                        k < j < head.len() ==> (#[trigger] head[j]).id != n.id {
                    let k = choose|k: int|
                        0 <= k < head.len() && #[trigger] head[k] == n && forall|j: int|
                            k < j < head.len() ==> (#[trigger] head[j]).id != n.id;
                    assert(rows[k] == n);
                    assert forall|j: int| k < j < rows.len() implies (#[trigger] rows[j]).id
                        != n.id by {
                        if j < head.len() {
                            assert(head[j].id != n.id);
                        }
                    }
                } else {
                    assert forall|j: int| 0 <= j < rows.len() implies (#[trigger] rows[j]).id
                        != n.id by {
                        if j < head.len() {
                            assert(head[j].id != n.id);
                        }
                    }
                }
            } else {
                assert(rows[rows.len() - 1] == n);
            }
        }
        if exists|k: int|
            0 <= k < rows.len() && #[trigger] rows[k] == n && forall|j: int|
                k < j < rows.len() ==> (#[trigger] rows[j]).id != n.id {
            let k = choose|k: int|
                0 <= k < rows.len() && #[trigger] rows[k] == n && forall|j: int|
                    k < j < rows.len() ==> (#[trigger] rows[j]).id != n.id;
            if k < head.len() {
                assert(rows[rows.len() - 1].id != n.id);
                assert(head[k] == n);
                assert forall|j: int| k < j < head.len() implies (#[trigger] head[j]).id
                    != n.id by {
                    assert(rows[j].id != n.id);
                }
                assert(before.contains(n));
                assert(kept.contains(n));
            }
        } else if nodes.contains(n) && forall|j: int|
            0 <= j < rows.len() ==> (#[trigger] rows[j]).id != n.id {
            assert forall|j: int| 0 <= j < head.len() implies (#[trigger] head[j]).id != n.id by {
                assert(rows[j].id != n.id);
            }
            assert(rows[rows.len() - 1].id != n.id);
            assert(before.contains(n));
            assert(kept.contains(n));
        }
    }
}

/// The list of one entry.
pub open spec fn sole(entry: Seq<char>) -> Seq<char> {
    "|"@ + entry + "|"@
}

proof fn list_of_one(entry: Seq<char>)
    ensures
        list_text(seq![entry]) == sole(entry),
{
    assert(join_of(seq![entry], "|"@) == entry);
}

/// What a node says of the run that wrote it.
pub open spec fn says_run(
    dataset_ids: Option<Seq<char>>,
    run_ids: Option<Seq<char>>,
    run_refs: Option<Seq<char>>,
    dataset: u128,
    data: u128,
    run: u128,
) -> bool {
    &&& dataset_ids == Some(sole(simple_text(dataset)))
    &&& run_ids == Some(sole(simple_text(run)))
    &&& run_refs == Some(
        sole(
            "source_run_ref:v1:"@ + uuid_text(run) + ":"@ + ("source_ref:v1:"@ + uuid_text(dataset)
                + ":"@ + uuid_text(data)),
        ),
    )
}

/// Remembering leaves a node for every point: it has the identifier, the name, the
/// type and all properties of the point, the time at which the point was made, and
/// what run wrote it. Where the graph had none with that identifier, its only owner
/// is the new data item.
pub proof fn points_become_nodes(
    g: Graph,
    points: Seq<DatapointRow>,
    edges: Seq<RawEdgeRow>,
    dataset: u128,
    data: u128,
    run: u128,
    k: int,
    ms: int,
)
    requires
        0 <= k < points.len(),
        forall|j: int|
            k < j < points.len() ==> uuid_text((#[trigger] points[j]).id) != uuid_text(
                points[k].id,
            ),
        under(points[k].properties, "created_at"@) == Some(Json::Int(ms)),
        ms <= i64::MAX,
    ensures
        exists|i: int|
            #![trigger graph_with(g, points, edges, dataset, data, run).nodes[i]]
            0 <= i < graph_with(g, points, edges, dataset, data, run).nodes.len() && {
                let n = graph_with(g, points, edges, dataset, data, run).nodes[i];
                let p = points[k];
                &&& n.id == uuid_text(p.id)
                &&& n.name == p.name
                &&& n.type_ == Some(p.type_)
                &&& n.properties == Some(json_text(Json::Object(p.properties)))
                &&& n.created_at == Some(iso_text(ms))
                &&& n.updated_at == Some(iso_text(ms))
                &&& says_run(
                    n.source_dataset_ids,
                    n.source_run_ids,
                    n.source_run_refs,
                    dataset,
                    data,
                    run,
                )
                &&& (!has_node(g.nodes, uuid_text(p.id)) ==> n.source_ref_keys == Some(
                    sole("source_ref:v1:"@ + uuid_text(dataset) + ":"@ + uuid_text(data)),
                ))
            },
{
    let rows = new_nodes(g, points, dataset, data, run);
    let p = points[k];
    let plain = node_row_of(p, uuid_text(dataset), uuid_text(data), uuid_text(run));
    let n = rows[k];
    assert forall|j: int| 0 <= j < rows.len() implies (#[trigger] rows[j]).id == uuid_text(
        points[j].id,
    ) by {}
    assert forall|j: int| k < j < rows.len() implies (#[trigger] rows[j]).id != n.id by {
        assert(uuid_text(points[j].id) != uuid_text(p.id));
    }
    nodes_written_are_there(g.nodes, rows, n);
    let after = graph_with(g, points, edges, dataset, data, run).nodes;
    let i = choose|i: int| 0 <= i < after.len() && after[i] == n;
    node_index_is_first(g.nodes, uuid_text(p.id));
    no_dashes_of(dataset);
    no_dashes_of(run);
    list_of_one(simple_text(dataset));
    list_of_one(simple_text(run));
    let owner = "source_ref:v1:"@ + uuid_text(dataset) + ":"@ + uuid_text(data);
    list_of_one(owner);
    list_of_one("source_run_ref:v1:"@ + uuid_text(run) + ":"@ + owner);
    assert(after[i].id == n.id);
}

proof fn replacing_joins(a: Seq<char>, b: Seq<char>, c: char, with: Seq<char>)
    ensures
        replace_char_of(a + b, c, with) == replace_char_of(a, c, with) + replace_char_of(
            b,
            c,
            with,
        ),
    decreases b.len(),
{
    if b.len() == 0 {
        assert(a + b =~= a);
        assert(replace_char_of(a, c, with) + replace_char_of(b, c, with) =~= replace_char_of(
            a,
            c,
            with,
        ));
    } else {
        replacing_joins(a, b.drop_last(), c, with);
        assert((a + b).drop_last() =~= a + b.drop_last());
        assert((a + b).last() == b.last());
        let tail = if b.last() == c {
            with
        } else {
            seq![b.last()]
        };
        assert(replace_char_of(a + b, c, with) =~= replace_char_of(a, c, with) + (replace_char_of(
            b.drop_last(),
            c,
            with,
        ) + tail));
    }
}

proof fn replacing_none(s: Seq<char>, c: char, with: Seq<char>)
    requires
        forall|i: int| 0 <= i < s.len() ==> #[trigger] s[i] != c,
    ensures
        replace_char_of(s, c, with) == s,
    decreases s.len(),
{
    if s.len() > 0 {
        let head = s.drop_last();
        assert forall|i: int| 0 <= i < head.len() implies #[trigger] head[i] != c by {
            assert(head[i] == s[i]);
        }
        replacing_none(head, c, with);
        assert(s[s.len() - 1] != c);
        assert(head + seq![s.last()] =~= s);
    } else {
        assert(replace_char_of(s, c, with) =~= s);
    }
}

proof fn digits_are_no_dashes(v: int, n: nat)
    requires
        0 <= v,
    ensures
        hex_digits(v, n).len() == n,
        forall|i: int| 0 <= i < n ==> #[trigger] hex_digits(v, n)[i] != '-',
    decreases n,
{
    if n > 0 {
        let high = hex_digits(v / 16, (n - 1) as nat);
        digits_are_no_dashes(v / 16, (n - 1) as nat);
        assert forall|i: int| 0 <= i < n implies #[trigger] hex_digits(v, n)[i] != '-' by {
            if i < n - 1 {
                assert(hex_digits(v, n)[i] == high[i]);
            }
        }
    }
}

/// The spelling of an identifier without its dashes is the one that rows are
/// stored under.
pub proof fn no_dashes_of(v: u128)
    ensures
        crate::ingest::datapoints::no_dashes(uuid_text(v)) == simple_text(v),
{
    reveal_strlit("");
    let s = simple_text(v);
    let d = seq!['-'];
    digits_are_no_dashes(v as int, 32);
    let e = ""@;
    assert(e =~= Seq::<char>::empty());
    assert(replace_char_of(d, '-', e) =~= Seq::<char>::empty()) by {
        assert(d.drop_last() =~= Seq::<char>::empty());
        assert(replace_char_of(d.drop_last(), '-', e) =~= Seq::<char>::empty());
    }
    let a = s.subrange(0, 8);
    let b = s.subrange(8, 12);
    let c = s.subrange(12, 16);
    let f = s.subrange(16, 20);
    let g = s.subrange(20, 32);
    replacing_none(a, '-', e);
    replacing_none(b, '-', e);
    replacing_none(c, '-', e);
    replacing_none(f, '-', e);
    replacing_none(g, '-', e);
    replacing_joins(a, d, '-', e);
    replacing_joins(a + d, b, '-', e);
    replacing_joins(a + d + b, d, '-', e);
    replacing_joins(a + d + b + d, c, '-', e);
    replacing_joins(a + d + b + d + c, d, '-', e);
    replacing_joins(a + d + b + d + c + d, f, '-', e);
    replacing_joins(a + d + b + d + c + d + f, d, '-', e);
    replacing_joins(a + d + b + d + c + d + f + d, g, '-', e);
    let none = Seq::<char>::empty();
    assert(a + none + b + none + c + none + f + none + g =~= s);
}

// ---------------------------------------------------------------------------
// Edges
// ---------------------------------------------------------------------------

/// The row at `i` is the first that runs as `row` does.
pub open spec fn first_same(edges: Seq<EdgeRow>, i: int, row: EdgeRow) -> bool {
    &&& 0 <= i < edges.len()
    &&& same_edge(edges[i], row)
    &&& forall|j: int| 0 <= j < i ==> !same_edge(#[trigger] edges[j], row)
}

/// The rows are named and no two of them run alike.
pub open spec fn told_apart(rows: Seq<EdgeRow>) -> bool {
    &&& forall|k: int| 0 <= k < rows.len() ==> (#[trigger] rows[k]).relationship_name is Some
    &&& forall|j: int, k: int|
        #![trigger rows[j], rows[k]]
        0 <= j < k < rows.len() ==> !same_edge(rows[j], rows[k])
}

proof fn rows_keep_their_place(edges: Seq<EdgeRow>, rows: Seq<EdgeRow>)
    ensures
        put_edges(edges, rows).len() >= edges.len(),
        forall|i: int|
            0 <= i < edges.len() ==> same_edge(#[trigger] put_edges(edges, rows)[i], edges[i]),
    decreases rows.len(),
{
    if rows.len() > 0 {
        rows_keep_their_place(edges, rows.drop_last());
        let before = put_edges(edges, rows.drop_last());
        let row = rows.last();
        edge_index_is_first(before, row.from_id, row.to_id, row.relationship_name);
        let after = put_edges(edges, rows);
        assert forall|i: int| 0 <= i < edges.len() implies same_edge(
            #[trigger] after[i],
            edges[i],
        ) by {
            assert(same_edge(before[i], edges[i]));
        }
    }
}

proof fn told_apart_before(rows: Seq<EdgeRow>)
    requires
        told_apart(rows),
        rows.len() > 0,
    ensures
        told_apart(rows.drop_last()),
        forall|k: int|
            0 <= k < rows.len() - 1 ==> !same_edge(#[trigger] rows.drop_last()[k], rows.last()),
{
    let head = rows.drop_last();
    assert(rows[rows.len() - 1] == rows.last());
    assert(forall|k: int| 0 <= k < head.len() ==> #[trigger] head[k] == rows[k]);
    assert forall|j: int, k: int|
        #![trigger head[j], head[k]]
        0 <= j < k < head.len() implies !same_edge(head[j], head[k]) by {
        assert(head[j] == rows[j] && head[k] == rows[k]);
    }
}

proof fn new_rows_are_given(edges: Seq<EdgeRow>, rows: Seq<EdgeRow>, t: int)
    requires
        told_apart(rows),
        edges.len() <= t < put_edges(edges, rows).len(),
    ensures
        exists|k: int| 0 <= k < rows.len() && #[trigger] rows[k] == put_edges(edges, rows)[t],
    decreases rows.len(),
{
    if rows.len() > 0 {
        let head = rows.drop_last();
        let row = rows.last();
        told_apart_before(rows);
        rows_keep_their_place(edges, head);
        let before = put_edges(edges, head);
        edge_index_is_first(before, row.from_id, row.to_id, row.relationship_name);
        if t < before.len() {
            new_rows_are_given(edges, head, t);
            let k = choose|k: int| 0 <= k < head.len() && #[trigger] head[k] == before[t];
            assert(rows[k] == before[t]);
            assert(!same_edge(head[k], row));
            assert(put_edges(edges, rows)[t] == before[t]);
        } else {
            assert(rows[rows.len() - 1] == put_edges(edges, rows)[t]);
        }
    }
}

/// A row that runs as none of those written stays as it was.
pub proof fn other_edges_stay(edges: Seq<EdgeRow>, rows: Seq<EdgeRow>, i: int)
    requires
        0 <= i < edges.len(),
        forall|k: int| 0 <= k < rows.len() ==> !same_edge(#[trigger] rows[k], edges[i]),
    ensures
        i < put_edges(edges, rows).len(),
        put_edges(edges, rows)[i] == edges[i],
    decreases rows.len(),
{
    if rows.len() > 0 {
        let head = rows.drop_last();
        let row = rows.last();
        assert forall|k: int| 0 <= k < head.len() implies !same_edge(
            #[trigger] head[k],
            edges[i],
        ) by {
            assert(head[k] == rows[k]);
        }
        other_edges_stay(edges, head, i);
        assert(!same_edge(rows[rows.len() - 1], edges[i]));
        let before = put_edges(edges, head);
        edge_index_is_first(before, row.from_id, row.to_id, row.relationship_name);
    }
}

/// An edge that was there keeps its first row, which gets the owners of the row
/// written and nothing else of it.
pub proof fn known_edge_gets_owners(edges: Seq<EdgeRow>, rows: Seq<EdgeRow>, k: int, i: int)
    requires
        told_apart(rows),
        0 <= k < rows.len(),
        first_same(edges, i, rows[k]),
    ensures
        i < put_edges(edges, rows).len(),
        put_edges(edges, rows)[i] == (EdgeRow {
            source_ref_keys: rows[k].source_ref_keys,
            ..edges[i]
        }),
    decreases rows.len(),
{
    let head = rows.drop_last();
    let row = rows.last();
    told_apart_before(rows);
    rows_keep_their_place(edges, head);
    let before = put_edges(edges, head);
    edge_index_is_first(before, row.from_id, row.to_id, row.relationship_name);
    let found = edge_index(before, row.from_id, row.to_id, row.relationship_name);
    assert(same_edge(before[i], edges[i]));
    if k < head.len() {
        assert(head[k] == rows[k]);
        known_edge_gets_owners(edges, head, k, i);
        assert(!same_edge(head[k], row));
    } else {
        assert forall|m: int| 0 <= m < head.len() implies !same_edge(
            #[trigger] head[m],
            edges[i],
        ) by {
            assert(!same_edge(head[m], row));
        }
        other_edges_stay(edges, head, i);
        if let Some(j) = found {
            if j < i {
                assert(same_edge(before[j], edges[j]));
                assert(!same_edge(edges[j], row));
            }
            if i < j {
                assert(!(before[i].from_id == row.from_id && before[i].to_id == row.to_id
                    && before[i].relationship_name == row.relationship_name));
            }
            assert(i == j);
        } else {
            assert(!(before[i].from_id == row.from_id && before[i].to_id == row.to_id
                && before[i].relationship_name == row.relationship_name));
        }
    }
}

/// An edge that was not there stands behind the others as it was given.
pub proof fn new_edge_is_there(edges: Seq<EdgeRow>, rows: Seq<EdgeRow>, k: int) -> (t: int)
    requires
        told_apart(rows),
        0 <= k < rows.len(),
        !has_edge(edges, rows[k]),
    ensures
        edges.len() <= t < put_edges(edges, rows).len(),
        put_edges(edges, rows)[t] == rows[k],
    decreases rows.len(),
{
    let head = rows.drop_last();
    let row = rows.last();
    told_apart_before(rows);
    rows_keep_their_place(edges, head);
    let before = put_edges(edges, head);
    edge_index_is_first(before, row.from_id, row.to_id, row.relationship_name);
    let found = edge_index(before, row.from_id, row.to_id, row.relationship_name);
    if k < head.len() {
        assert(head[k] == rows[k]);
        let t = new_edge_is_there(edges, head, k);
        assert(!same_edge(head[k], row));
        t
    } else {
        if let Some(j) = found {
            assert(same_edge(before[j], row));
            if j < edges.len() {
                assert(same_edge(edges[j], rows[k]));
            } else {
                new_rows_are_given(edges, head, j);
                let m = choose|m: int| 0 <= m < head.len() && #[trigger] head[m] == before[j];
                assert(!same_edge(head[m], row));
            }
        }
        before.len() as int
    }
}

/// Remembering leaves a row for every edge that the graph did not have, with all
/// that the edge says and what run wrote it; its only owner is the new data item.
pub proof fn edges_become_rows(
    g: Graph,
    points: Seq<DatapointRow>,
    edges: Seq<RawEdgeRow>,
    dataset: u128,
    data: u128,
    run: u128,
    k: int,
)
    requires
        0 <= k < edges.len(),
        forall|i: int, j: int|
            #![trigger edges[i], edges[j]]
            0 <= i < j < edges.len() ==> !(edges[i].from_id == edges[j].from_id && edges[i].to_id
                == edges[j].to_id && edges[i].relationship_name == edges[j].relationship_name),
        forall|i: int|
            0 <= i < g.edges.len() ==> !((#[trigger] g.edges[i]).from_id == edges[k].from_id
                && g.edges[i].to_id == edges[k].to_id && g.edges[i].relationship_name == Some(
                edges[k].relationship_name,
            )),
    ensures
        exists|i: int|
            #![trigger graph_with(g, points, edges, dataset, data, run).edges[i]]
            0 <= i < graph_with(g, points, edges, dataset, data, run).edges.len() && {
                let r = graph_with(g, points, edges, dataset, data, run).edges[i];
                let e = edges[k];
                &&& r.from_id == e.from_id
                &&& r.to_id == e.to_id
                &&& r.relationship_name == Some(e.relationship_name)
                &&& r.properties == Some(json_text(Json::Object(with_edge_text(points, e))))
                &&& r.source_ref_keys == Some(
                    sole("source_ref:v1:"@ + uuid_text(dataset) + ":"@ + uuid_text(data)),
                )
                &&& says_run(
                    r.source_dataset_ids,
                    r.source_run_ids,
                    r.source_run_refs,
                    dataset,
                    data,
                    run,
                )
            },
{
    let rows = new_edges(g, points, edges, dataset, data, run);
    assert forall|j: int| 0 <= j < rows.len() implies (#[trigger] rows[j]).from_id
        == edges[j].from_id && rows[j].to_id == edges[j].to_id && rows[j].relationship_name == Some(
        edges[j].relationship_name,
    ) by {}
    assert(told_apart(rows)) by {
        assert forall|i: int, j: int|
            #![trigger rows[i], rows[j]]
            0 <= i < j < rows.len() implies !same_edge(rows[i], rows[j]) by {
            assert(edges[i].from_id == rows[i].from_id && edges[j].from_id == rows[j].from_id);
        }
    }
    edge_index_is_first(
        g.edges,
        edges[k].from_id,
        edges[k].to_id,
        Some(edges[k].relationship_name),
    );
    let r = rows[k];
    if has_edge(g.edges, r) {
        let i = choose|i: int| 0 <= i < g.edges.len() && same_edge(#[trigger] g.edges[i], r);
        assert(g.edges[i].from_id == edges[k].from_id);
    }
    let after = graph_with(g, points, edges, dataset, data, run).edges;
    let t = new_edge_is_there(g.edges, rows, k);
    no_dashes_of(dataset);
    no_dashes_of(run);
    list_of_one(simple_text(dataset));
    list_of_one(simple_text(run));
    let owner = "source_ref:v1:"@ + uuid_text(dataset) + ":"@ + uuid_text(data);
    list_of_one(owner);
    list_of_one("source_run_ref:v1:"@ + uuid_text(run) + ":"@ + owner);
    assert(r == edge_row_of(
        points,
        edges[k],
        uuid_text(dataset),
        uuid_text(data),
        uuid_text(run),
    ));
    assert(after[t].from_id == r.from_id);
}

// ---------------------------------------------------------------------------
// The text of an edge
// ---------------------------------------------------------------------------

/// An edge with a text of its own is kept with that.
pub proof fn given_edge_text_stays(points: Seq<DatapointRow>, e: RawEdgeRow, text: Seq<char>)
    requires
        under(e.properties, "edge_text"@) == Some(Json::Text(text)),
        text.len() > 0,
    ensures
        with_edge_text(points, e) == e.properties,
{
}

/// The point at `k` is the last named one that is spelled `id`.
pub open spec fn last_named(points: Seq<DatapointRow>, k: int, id: Seq<char>) -> bool {
    &&& 0 <= k < points.len()
    &&& points[k].name is Some
    &&& uuid_text(points[k].id) == id
    &&& forall|j: int|
        k < j < points.len() ==> !((#[trigger] points[j]).name is Some && uuid_text(points[j].id)
            == id)
}

proof fn last_named_is_found(points: Seq<DatapointRow>, k: int, id: Seq<char>)
    requires
        last_named(points, k, id),
    ensures
        name_of(points, id) == points[k].name,
    decreases points.len(),
{
    if k < points.len() - 1 {
        let head = points.drop_last();
        assert(points[points.len() - 1] == points.last());
        assert(last_named(head, k, id)) by {
            assert forall|j: int| k < j < head.len() implies !((#[trigger] head[j]).name is Some
                && uuid_text(head[j].id) == id) by {
                assert(head[j] == points[j]);
            }
        }
        last_named_is_found(head, k, id);
    }
}

proof fn underscores_become_spaces(s: Seq<char>)
    ensures
        replace_char_of(s, '_', " "@) == s.map_values(
            |c: char|
                if c == '_' {
                    ' '
                } else {
                    c
                },
        ),
    decreases s.len(),
{
    reveal_strlit(" ");
    let f = |c: char|
        if c == '_' {
            ' '
        } else {
            c
        };
    if s.len() > 0 {
        underscores_become_spaces(s.drop_last());
        assert(" "@ =~= seq![' ']);
        assert(s.map_values(f) =~= s.drop_last().map_values(f).push(f(s.last())));
        assert(replace_char_of(s, '_', " "@) =~= s.drop_last().map_values(f).push(f(s.last())));
    } else {
        assert(replace_char_of(s, '_', " "@) =~= s.map_values(f));
    }
}

/// An edge without a text gets one: what its ends are called, with the
/// relationship between them, its underscores as spaces, and a full stop. All else
/// that it says stays.
pub proof fn missing_edge_text_is_made(
    points: Seq<DatapointRow>,
    e: RawEdgeRow,
    a: int,
    b: int,
    other: Seq<char>,
)
    requires
        under(e.properties, "edge_text"@) is None || under(e.properties, "edge_text"@) == Some(
            Json::Text(Seq::empty()),
        ),
        last_named(points, a, e.from_id),
        last_named(points, b, e.to_id),
        other != "edge_text"@,
    ensures
        under(with_edge_text(points, e), "edge_text"@) == Some(
            Json::Text(
                points[a].name->0 + " "@ + e.relationship_name.map_values(
                    |c: char|
                        if c == '_' {
                            ' '
                        } else {
                            c
                        },
                ) + " "@ + points[b].name->0 + "."@,
            ),
        ),
        under(with_edge_text(points, e), other) == under(e.properties, other),
{
    last_named_is_found(points, a, e.from_id);
    last_named_is_found(points, b, e.to_id);
    underscores_become_spaces(e.relationship_name);
    let text = Json::Text(fallback_text(points, e.from_id, e.to_id, e.relationship_name));
    field_set_is_read(e.properties, "edge_text"@, text);
    field_set_keeps_others(e.properties, "edge_text"@, text, other);
}

proof fn unnamed_is_not_found(points: Seq<DatapointRow>, id: Seq<char>)
    requires
        forall|j: int|
            0 <= j < points.len() ==> !((#[trigger] points[j]).name is Some && uuid_text(
                points[j].id,
            ) == id),
    ensures
        name_of(points, id) is None,
    decreases points.len(),
{
    if points.len() > 0 {
        let head = points.drop_last();
        assert forall|j: int| 0 <= j < head.len() implies !((#[trigger] head[j]).name is Some
            && uuid_text(head[j].id) == id) by {
            assert(head[j] == points[j]);
        }
        assert(!(points[points.len() - 1].name is Some && uuid_text(points[points.len() - 1].id)
            == id));
        unnamed_is_not_found(head, id);
    }
}

/// An end without a name is called by its identifier there.
pub proof fn unnamed_end_is_its_identifier(points: Seq<DatapointRow>, id: Seq<char>)
    requires
        forall|j: int|
            0 <= j < points.len() ==> !((#[trigger] points[j]).name is Some && uuid_text(
                points[j].id,
            ) == id),
    ensures
        endpoint_label(points, id) == id,
{
    unnamed_is_not_found(points, id);
}

} // verus!
