//! The shape of what one source gives a graph.

use vstd::prelude::*;

use crate::ingest::assemble::{
    add_point, built_of, built_start, chunk_point, dedup_raw, document_point, entity_named,
    entity_point, has_point, has_raw, kind_of, label_of, paired, raw_edge_of, same_raw, summary_at,
    summary_point, type_point, with_chunk, with_chunks, with_node, with_nodes, with_relations,
    Built, RawEdgeRow, SourceRow,
};
use crate::ingest::chunk::ChunkRow;
use crate::ingest::datapoints::DatapointRow;
use crate::ingest::extract::{EdgeFound, GraphFound, NodeFound};
use crate::ingest::ids::{entity_id_of, entity_type_id_of, text_summary_id_of};
use crate::uid::uuid_text;

verus! {

/// No identifier occurs twice.
pub open spec fn distinct_points(points: Seq<DatapointRow>) -> bool {
    forall|i: int, j: int|
        #![trigger points[i], points[j]]
        0 <= i < j < points.len() ==> points[i].id != points[j].id
}

/// Among what was built is a data point with that identifier.
pub open spec fn has_id(b: Built, id: u128) -> bool {
    has_point(b.points, id) || has_point(b.types, id) || has_point(b.entities, id)
}

/// The edge runs between two data points of what was built.
pub open spec fn joins(b: Built, e: RawEdgeRow) -> bool {
    exists|from: u128, to: u128|
        #![trigger uuid_text(from), uuid_text(to)]
        e.from_id == uuid_text(from) && e.to_id == uuid_text(to) && has_id(b, from) && has_id(b, to)
}

/// Every edge runs between two data points of what was built, and types and
/// entities do not repeat.
pub open spec fn closed(b: Built) -> bool {
    &&& forall|i: int| 0 <= i < b.edges.len() ==> joins(b, #[trigger] b.edges[i])
    &&& distinct_points(b.types)
    &&& distinct_points(b.entities)
}

proof fn pushed_point(points: Seq<DatapointRow>, p: DatapointRow)
    ensures
        has_point(points.push(p), p.id),
        forall|id: u128| #[trigger] has_point(points, id) ==> has_point(points.push(p), id),
{
    let after = points.push(p);
    assert(after[points.len() as int] == p);
    assert forall|id: u128| #[trigger] has_point(points, id) implies has_point(after, id) by {
        let i = choose|i: int| 0 <= i < points.len() && (#[trigger] points[i]).id == id;
        assert(after[i].id == id);
    }
}

proof fn added_point(points: Seq<DatapointRow>, p: DatapointRow)
    ensures
        has_point(add_point(points, p), p.id),
        forall|id: u128| #[trigger] has_point(points, id) ==> has_point(add_point(points, p), id),
        distinct_points(points) ==> distinct_points(add_point(points, p)),
{
    pushed_point(points, p);
    if distinct_points(points) && !has_point(points, p.id) {
        let after = points.push(p);
        assert forall|i: int, j: int|
            #![trigger after[i], after[j]]
            0 <= i < j < after.len() implies after[i].id != after[j].id by {
            assert(points[i] == after[i]);
            if j < points.len() {
                assert(points[j] == after[j]);
            }
        }
    }
}

/// Every data point of `a` is one of `b`.
spec fn grown(a: Built, b: Built) -> bool {
    forall|id: u128| #[trigger] has_id(a, id) ==> has_id(b, id)
}

proof fn joined_stays(a: Built, b: Built, e: RawEdgeRow)
    requires
        grown(a, b),
        joins(a, e),
    ensures
        joins(b, e),
{
    let (from, to) = choose|from: u128, to: u128|
        #![trigger uuid_text(from), uuid_text(to)]
        e.from_id == uuid_text(from) && e.to_id == uuid_text(to) && has_id(a, from) && has_id(
            a,
            to,
        );
    assert(has_id(b, from) && has_id(b, to));
}

proof fn edge_joins(b: Built, from: u128, to: u128, e: RawEdgeRow)
    requires
        e.from_id == uuid_text(from),
        e.to_id == uuid_text(to),
        has_id(b, from),
        has_id(b, to),
    ensures
        joins(b, e),
{
}

proof fn node_keeps_closed(b: Built, src: SourceRow, chunk_id: u128, n: NodeFound)
    requires
        closed(b),
        has_point(b.points, chunk_id),
    ensures
        closed(with_node(b, src, chunk_id, n)),
        has_point(with_node(b, src, chunk_id, n).entities, entity_id_of(label_of(n))),
        forall|id: u128| #[trigger]
            has_point(b.entities, id) ==> has_point(with_node(b, src, chunk_id, n).entities, id),
        grown(b, with_node(b, src, chunk_id, n)),
{
    let after = with_node(b, src, chunk_id, n);
    let entity = entity_id_of(label_of(n));
    let kind = entity_type_id_of(kind_of(n));
    added_point(b.types, type_point(src, n));
    added_point(b.entities, entity_point(src, n));
    assert(type_point(src, n).id == kind);
    assert(entity_point(src, n).id == entity);
    assert(grown(b, after)) by {
        assert forall|id: u128| #[trigger] has_id(b, id) implies has_id(after, id) by {
            assert(has_point(b.types, id) ==> has_point(after.types, id));
            assert(has_point(b.entities, id) ==> has_point(after.entities, id));
        }
    }
    assert(has_id(after, entity) && has_id(after, kind) && has_id(after, chunk_id));
    assert forall|i: int| 0 <= i < after.edges.len() implies joins(
        after,
        #[trigger] after.edges[i],
    ) by {
        if i < b.edges.len() {
            assert(after.edges[i] == b.edges[i]);
            joined_stays(b, after, b.edges[i]);
        } else if i == b.edges.len() {
            edge_joins(after, entity, kind, after.edges[i]);
        } else {
            edge_joins(after, chunk_id, entity, after.edges[i]);
        }
    }
}

proof fn nodes_keep_closed(b: Built, src: SourceRow, chunk_id: u128, nodes: Seq<NodeFound>)
    requires
        closed(b),
        has_point(b.points, chunk_id),
    ensures
        closed(with_nodes(b, src, chunk_id, nodes)),
        with_nodes(b, src, chunk_id, nodes).points == b.points,
        forall|i: int|
            0 <= i < nodes.len() ==> has_point(
                with_nodes(b, src, chunk_id, nodes).entities,
                entity_id_of(label_of(#[trigger] nodes[i])),
            ),
        grown(b, with_nodes(b, src, chunk_id, nodes)),
    decreases nodes.len(),
{
    if nodes.len() > 0 {
        let head = nodes.drop_last();
        nodes_keep_closed(b, src, chunk_id, head);
        let before = with_nodes(b, src, chunk_id, head);
        node_keeps_closed(before, src, chunk_id, nodes.last());
        let after = with_nodes(b, src, chunk_id, nodes);
        assert forall|i: int| 0 <= i < nodes.len() implies has_point(
            after.entities,
            entity_id_of(label_of(#[trigger] nodes[i])),
        ) by {
            if i < head.len() {
                assert(nodes[i] == head[i]);
            }
        }
        assert forall|id: u128| #[trigger] has_id(b, id) implies has_id(after, id) by {
            assert(has_id(before, id));
        }
    }
}

proof fn named_entity_is_there(nodes: Seq<NodeFound>, key: Seq<char>)
    ensures
        entity_named(nodes, key) matches Some(id) ==> exists|i: int|
            0 <= i < nodes.len() && id == entity_id_of(label_of(#[trigger] nodes[i])),
    decreases nodes.len(),
{
    if nodes.len() > 0 {
        let head = nodes.drop_last();
        named_entity_is_there(head, key);
        match entity_named(head, key) {
            Some(id) => {
                let i = choose|i: int|
                    0 <= i < head.len() && id == entity_id_of(label_of(#[trigger] head[i]));
                assert(nodes[i] == head[i]);
            },
            None => {
                assert(nodes[nodes.len() - 1] == nodes.last());
            },
        }
    }
}

proof fn relations_join(
    b: Built,
    src: SourceRow,
    nodes: Seq<NodeFound>,
    found: Seq<EdgeFound>,
)
    requires
        closed(b),
        forall|i: int|
            0 <= i < nodes.len() ==> has_point(
                b.entities,
                entity_id_of(label_of(#[trigger] nodes[i])),
            ),
    ensures
        forall|i: int|
            0 <= i < with_relations(b.edges, src, nodes, found).len() ==> joins(
                b,
                #[trigger] with_relations(b.edges, src, nodes, found)[i],
            ),
    decreases found.len(),
{
    if found.len() > 0 {
        relations_join(b, src, nodes, found.drop_last());
        let e = found.last();
        named_entity_is_there(nodes, e.source_node_id);
        named_entity_is_there(nodes, e.target_node_id);
        let before = with_relations(b.edges, src, nodes, found.drop_last());
        let after = with_relations(b.edges, src, nodes, found);
        match (entity_named(nodes, e.source_node_id), entity_named(nodes, e.target_node_id)) {
            (Some(from), Some(to)) => {
                assert(has_id(b, from) && has_id(b, to));
                edge_joins(b, from, to, after.last());
                assert forall|i: int| 0 <= i < after.len() implies joins(b, #[trigger] after[i]) by {
                    if i < before.len() {
                        assert(after[i] == before[i]);
                    }
                }
            },
            _ => {},
        }
    }
}

proof fn chunk_keeps_closed(
    b: Built,
    src: SourceRow,
    id: u128,
    chunk: ChunkRow,
    graph: GraphFound,
    summaries: Seq<Seq<char>>,
)
    requires
        closed(b),
        has_point(b.points, src.document_id),
    ensures
        closed(with_chunk(b, src, id, chunk, graph, summaries)),
        has_point(with_chunk(b, src, id, chunk, graph, summaries).points, src.document_id),
{
    let summary = summary_at(summaries, chunk.chunk_index);
    let begun = Built {
        points: b.points.push(chunk_point(src, id, chunk)).push(summary_point(src, id, summary)),
        edges: b.edges.push(
            raw_edge_of(id, src.document_id, "is_part_of"@, None, src.updated_at),
        ).push(raw_edge_of(text_summary_id_of(id), id, "made_from"@, None, src.updated_at)),
        ..b
    };
    pushed_point(b.points, chunk_point(src, id, chunk));
    pushed_point(b.points.push(chunk_point(src, id, chunk)), summary_point(src, id, summary));
    assert(grown(b, begun));
    assert(has_id(begun, id) && has_id(begun, text_summary_id_of(id)) && has_id(
        begun,
        src.document_id,
    ));
    assert forall|i: int| 0 <= i < begun.edges.len() implies joins(
        begun,
        #[trigger] begun.edges[i],
    ) by {
        if i < b.edges.len() {
            assert(begun.edges[i] == b.edges[i]);
            joined_stays(b, begun, b.edges[i]);
        } else if i == b.edges.len() {
            edge_joins(begun, id, src.document_id, begun.edges[i]);
        } else {
            edge_joins(begun, text_summary_id_of(id), id, begun.edges[i]);
        }
    }
    nodes_keep_closed(begun, src, id, graph.nodes);
    let named = with_nodes(begun, src, id, graph.nodes);
    relations_join(named, src, graph.nodes, graph.edges);
    let after = with_chunk(b, src, id, chunk, graph, summaries);
    assert(grown(named, after));
    assert forall|i: int| 0 <= i < after.edges.len() implies joins(
        after,
        #[trigger] after.edges[i],
    ) by {
        joined_stays(named, after, after.edges[i]);
    }
}

proof fn chunks_keep_closed(
    src: SourceRow,
    ids: Seq<u128>,
    chunks: Seq<ChunkRow>,
    graphs: Seq<GraphFound>,
    summaries: Seq<Seq<char>>,
    n: nat,
)
    ensures
        closed(with_chunks(built_start(src), src, ids, chunks, graphs, summaries, n)),
        has_point(
            with_chunks(built_start(src), src, ids, chunks, graphs, summaries, n).points,
            src.document_id,
        ),
    decreases n,
{
    if n == 0 {
        assert(built_start(src).points[0] == document_point(src));
    } else {
        chunks_keep_closed(src, ids, chunks, graphs, summaries, (n - 1) as nat);
        chunk_keeps_closed(
            with_chunks(built_start(src), src, ids, chunks, graphs, summaries, (n - 1) as nat),
            src,
            ids[n - 1],
            chunks[n - 1],
            graphs[n - 1],
            summaries,
        );
    }
}

/// What one source gives is closed: every edge runs between two of its data
/// points, and no type and no entity is given twice.
pub proof fn source_is_closed(
    src: SourceRow,
    ids: Seq<u128>,
    chunks: Seq<ChunkRow>,
    graphs: Seq<GraphFound>,
    summaries: Seq<Seq<char>>,
)
    ensures
        closed(built_of(src, ids, chunks, graphs, summaries)),
{
    chunks_keep_closed(
        src,
        ids,
        chunks,
        graphs,
        summaries,
        paired(chunks.len(), graphs.len()),
    );
}

/// Leaving out repeated edges keeps one of each, and those as they were.
pub proof fn dedup_raw_keeps_each_once(edges: Seq<RawEdgeRow>)
    ensures
        forall|i: int, j: int|
            #![trigger dedup_raw(edges)[i], dedup_raw(edges)[j]]
            0 <= i < j < dedup_raw(edges).len() ==> !same_raw(
                dedup_raw(edges)[i],
                dedup_raw(edges)[j],
            ),
        forall|e: RawEdgeRow| #[trigger] has_raw(dedup_raw(edges), e) <==> has_raw(edges, e),
        forall|i: int|
            0 <= i < dedup_raw(edges).len() ==> edges.contains(#[trigger] dedup_raw(edges)[i]),
    decreases edges.len(),
{
    if edges.len() > 0 {
        let head = edges.drop_last();
        let last = edges.last();
        dedup_raw_keeps_each_once(head);
        let before = dedup_raw(head);
        let after = dedup_raw(edges);
        assert(edges[edges.len() - 1] == last);
        assert forall|e: RawEdgeRow| #[trigger] has_raw(edges, e) <==> has_raw(head, e) || same_raw(
            last,
            e,
        ) by {
            if has_raw(edges, e) {
                let i = choose|i: int| 0 <= i < edges.len() && same_raw(#[trigger] edges[i], e);
                if i < head.len() {
                    assert(same_raw(head[i], e));
                }
            }
            if has_raw(head, e) {
                let i = choose|i: int| 0 <= i < head.len() && same_raw(#[trigger] head[i], e);
                assert(same_raw(edges[i], e));
            }
        }
        assert forall|i: int| 0 <= i < after.len() implies edges.contains(#[trigger] after[i]) by {
            if i < before.len() {
                assert(after[i] == before[i]);
                assert(head.contains(before[i]));
                let k = choose|k: int| 0 <= k < head.len() && head[k] == before[i];
                assert(edges[k] == after[i]);
            }
        }
        if has_raw(before, last) {
            let m = choose|m: int| 0 <= m < before.len() && same_raw(#[trigger] before[m], last);
            assert forall|e: RawEdgeRow| #[trigger] has_raw(after, e) <==> has_raw(edges, e) by {
                if same_raw(last, e) {
                    assert(same_raw(before[m], e));
                }
            }
        } else {
            assert(after == before.push(last));
            assert(after[before.len() as int] == last);
            assert forall|e: RawEdgeRow| #[trigger] has_raw(after, e) <==> has_raw(edges, e) by {
                if has_raw(after, e) {
                    let i = choose|i: int| 0 <= i < after.len() && same_raw(#[trigger] after[i], e);
                    if i < before.len() {
                        assert(same_raw(before[i], e));
                    }
                }
                if has_raw(before, e) {
                    let i = choose|i: int|
                        0 <= i < before.len() && same_raw(#[trigger] before[i], e);
                    assert(same_raw(after[i], e));
                }
            }
            assert forall|i: int, j: int|
                #![trigger after[i], after[j]]
                0 <= i < j < after.len() implies !same_raw(after[i], after[j]) by {
                assert(after[i] == before[i]);
                if j < before.len() {
                    assert(after[j] == before[j]);
                }
            }
        }
    }
}

} // verus!
