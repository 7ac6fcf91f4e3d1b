use reflect_mem::storage::graph::{
    qualified, GraphEdge, GraphError, GraphNode, GraphStore, ReachedNode,
};
use reflect_mem::storage::refs::{merge_ref, ref_count, split_refs, strip_ref, total_refs};

fn node(id: &str, name: &str, type_: &str) -> GraphNode {
    GraphNode {
        id: id.into(),
        name: Some(name.into()),
        type_: Some(type_.into()),
        created_at: None,
        updated_at: None,
        properties: None,
        source_ref_keys: None,
        source_dataset_ids: None,
        source_run_ids: None,
        source_run_refs: None,
    }
}

fn edge(from: &str, to: &str, rel: &str) -> GraphEdge {
    GraphEdge {
        from_id: from.into(),
        to_id: to.into(),
        relationship_name: Some(rel.into()),
        created_at: None,
        updated_at: None,
        properties: None,
        source_ref_keys: None,
        source_dataset_ids: None,
        source_run_ids: None,
        source_run_refs: None,
    }
}

fn owned_node(id: &str, refs: &str) -> GraphNode {
    let mut n = node(id, id, "Entity");
    n.source_ref_keys = Some(refs.into());
    n
}

fn depths(reached: &[ReachedNode]) -> std::collections::BTreeMap<String, u32> {
    reached
        .iter()
        .map(|r| (r.node.id.clone(), r.depth))
        .collect()
}

#[test]
fn insert_and_count() {
    let mut g = GraphStore::open_in_memory();
    g.insert_nodes(&[node("a", "A", "Entity"), node("b", "B", "Entity")]);
    g.insert_edges(&[edge("a", "b", "is_a")]);
    assert_eq!(g.node_count(), 2);
    assert_eq!(g.edge_count(), 1);
}

#[test]
fn traversal_reaches_k_hops_and_stops() {
    let mut g = GraphStore::open_in_memory();
    g.insert_nodes(&[
        node("a", "A", "Entity"),
        node("b", "B", "Entity"),
        node("c", "C", "Entity"),
        node("d", "D", "Entity"),
    ]);
    g.insert_edges(&[
        edge("a", "b", "is_a"),
        edge("b", "c", "is_a"),
        edge("c", "d", "is_a"),
    ]);

    let one = depths(&g.traverse(&["a".into()], 1, None));
    assert_eq!(one.get("a"), Some(&0));
    assert_eq!(one.get("b"), Some(&1));
    assert_eq!(one.get("c"), None, "2 hops away must be excluded");

    let three = depths(&g.traverse(&["a".into()], 3, None));
    assert_eq!(three.get("d"), Some(&3));
    assert_eq!(three.len(), 4);
}

#[test]
fn traversal_handles_cycles() {
    let mut g = GraphStore::open_in_memory();
    g.insert_nodes(&[node("a", "A", "Entity"), node("b", "B", "Entity")]);
    g.insert_edges(&[edge("a", "b", "x"), edge("b", "a", "x")]);
    let reached = depths(&g.traverse(&["a".into()], 10, None));
    assert_eq!(reached.len(), 2, "cycle must not loop forever or duplicate");
    assert_eq!(reached.get("a"), Some(&0), "seed keeps its depth-0 entry");
}

#[test]
fn traversal_filters_relationship_types() {
    let mut g = GraphStore::open_in_memory();
    g.insert_nodes(&[
        node("a", "A", "Entity"),
        node("b", "B", "Entity"),
        node("c", "C", "Entity"),
    ]);
    g.insert_edges(&[edge("a", "b", "is_a"), edge("a", "c", "contains")]);

    let only = depths(&g.traverse(&["a".into()], 1, Some(&["is_a".to_string()])));
    assert_eq!(only.get("b"), Some(&1));
    assert_eq!(only.get("c"), None);
}

#[test]
fn metadata_roundtrip() {
    let mut g = GraphStore::open_in_memory();
    g.insert_metadata(&[("provenance_version".into(), "1".into())]);
    assert_eq!(g.metadata("provenance_version").as_deref(), Some("1"));
    assert_eq!(g.metadata("missing"), None);
}

#[test]
fn metadata_is_replaced_by_key() {
    let mut g = GraphStore::open_in_memory();
    g.insert_metadata(&[("k".into(), "1".into()), ("k".into(), "2".into())]);
    assert_eq!(g.metadata("k").as_deref(), Some("2"));
    assert_eq!(g.all_metadata().len(), 1);
}

#[test]
fn a_node_written_again_replaces_the_old_row() {
    let mut g = GraphStore::open_in_memory();
    g.insert_nodes(&[node("a", "A", "Entity"), node("a", "B", "Person")]);
    assert_eq!(g.node_count(), 1);
    assert_eq!(g.node_by_id("a").unwrap().name.as_deref(), Some("B"));
    assert!(g.node_by_id("b").is_none());
    assert_eq!(g.nodes_by_type("Person").len(), 1);
    assert_eq!(g.nodes_by_type("Entity").len(), 0);
    assert_eq!(g.all_node_ids(), vec!["a".to_string()]);
}

#[test]
fn seeds_outside_the_store_still_lead_on() {
    let mut g = GraphStore::open_in_memory();
    g.insert_nodes(&[node("b", "B", "Entity")]);
    g.insert_edges(&[edge("gone", "b", "x")]);
    let reached = depths(&g.traverse(&["gone".into()], 2, None));
    assert_eq!(reached.get("b"), Some(&1));
    assert_eq!(reached.len(), 1);
}

#[test]
fn neighbours_follow_the_edges_out_of_a_node() {
    let mut g = GraphStore::open_in_memory();
    g.insert_nodes(&[node("a", "A", "E"), node("b", "B", "E"), node("c", "C", "E")]);
    g.insert_edges(&[edge("a", "b", "x"), edge("c", "a", "x"), edge("a", "c", "y")]);
    let all: Vec<String> = g.neighbours("a", None).into_iter().map(|n| n.id).collect();
    assert_eq!(all, vec!["b", "c"]);
    let only: Vec<String> = g
        .neighbours("a", Some(&["y".to_string()]))
        .into_iter()
        .map(|n| n.id)
        .collect();
    assert_eq!(only, vec!["c"]);
    assert_eq!(g.edges_from("a").len(), 2);
    assert_eq!(g.edges_within(&["a".into(), "b".into()]).len(), 1);
}

#[test]
fn histograms_count_names_most_frequent_first() {
    let mut g = GraphStore::open_in_memory();
    g.insert_nodes(&[node("a", "A", "X"), node("b", "B", "Y"), node("c", "C", "Y")]);
    g.insert_edges(&[edge("a", "b", "r"), edge("b", "c", "r"), edge("a", "c", "s")]);
    assert_eq!(
        g.node_type_counts(),
        vec![("Y".to_string(), 2), ("X".to_string(), 1)]
    );
    assert_eq!(
        g.relationship_counts(),
        vec![("r".to_string(), 2), ("s".to_string(), 1)]
    );
    let mut names = g.surviving_relationship_names();
    names.sort();
    assert_eq!(names, vec!["r", "s"]);
}

#[test]
fn edges_are_deduplicated_and_deleted() {
    let mut g = GraphStore::open_in_memory();
    g.insert_nodes(&[node("a", "A", "E"), node("b", "B", "E")]);
    g.insert_edges(&[edge("a", "b", "x"), edge("a", "b", "x"), edge("b", "a", "x"), edge("a", "z", "x")]);
    assert_eq!(g.dedup_edges(), 1);
    assert_eq!(g.edge_count(), 3);
    assert_eq!(
        g.edges_with_missing_endpoint(),
        vec![("a".to_string(), "z".to_string(), "x".to_string())]
    );
    assert_eq!(g.delete_edges_by_endpoints(&[("a".into(), "z".into())]), 1);
    assert_eq!(g.delete_edges(&[("b".into(), "a".into(), "x".into())]), 1);
    assert_eq!(g.delete_nodes(&["a".into(), "nope".into()]), 1);
    assert_eq!(g.node_count(), 1);
    assert_eq!(g.edge_count(), 1);
}

#[test]
fn provenance_is_merged_found_and_detached() {
    let mut g = GraphStore::open_in_memory();
    g.insert_nodes(&[owned_node("a", "|k1|")]);
    let mut rows = vec![owned_node("a", "|k2|"), owned_node("b", "|k2|")];
    let mut edges: Vec<GraphEdge> = Vec::new();
    g.merge_provenance(&mut rows, &mut edges, "k2");
    assert_eq!(rows[0].source_ref_keys.as_deref(), Some("|k1|k2|"));
    assert_eq!(rows[1].source_ref_keys.as_deref(), Some("|k2|"));
    g.insert_nodes(&rows);
    assert_eq!(g.nodes_with_source_ref("k2").len(), 2);
    assert_eq!(g.detach_source_ref_from_nodes("k2", &["a".into()]).unwrap(), 1);
    assert_eq!(
        g.node_by_id("a").unwrap().source_ref_keys.as_deref(),
        Some("|k1|")
    );
    g.insert_nodes(&[node("n", "N", "E")]);
    assert_eq!(
        g.detach_source_ref_from_nodes("k2", &["n".into()]),
        Err(GraphError::NullSourceRefs)
    );
}

#[test]
fn provenance_lists_take_and_lose_entries() {
    assert_eq!(merge_ref(None, "k"), "|k|");
    assert_eq!(merge_ref(Some("|a|"), "k"), "|a|k|");
    assert_eq!(merge_ref(Some("|a|k|"), "k"), "|a|k|");
    assert_eq!(strip_ref("|a|k|", "k"), "|a|");
    assert_eq!(strip_ref("|k|", "k"), "");
    assert_eq!(split_refs("|a||b|"), vec!["a", "b"]);
    assert_eq!(total_refs(&Some("|a|b|".into())), 2);
    assert_eq!(ref_count(&Some("|a|b|a|".into()), "a"), 2);
    assert_eq!(total_refs(&None), 0);
    assert_eq!(ref_count(&None, "a"), 0);
    // an entry taken off again leaves the list as it was
    assert_eq!(strip_ref(&merge_ref(Some("|a|b|"), "k"), "k"), "|a|b|");
}

#[test]
fn rows_are_found_by_whole_entries() {
    let mut g = GraphStore::open_in_memory();
    g.insert_nodes(&[owned_node("x", "|ab|c|")]);
    assert!(g.nodes_with_source_ref("a").is_empty());
    assert!(g.nodes_with_source_ref("").is_empty());
    assert!(g.nodes_with_source_ref("%").is_empty());
    assert_eq!(g.nodes_with_source_ref("ab").len(), 1);
    assert_eq!(g.nodes_with_source_ref("c").len(), 1);
}

#[test]
fn written_edges_collapse_and_released_ones_go() {
    let mut g = GraphStore::open_in_memory();
    let mut first = edge("a", "b", "knows");
    first.source_ref_keys = Some("|r1|".into());
    let mut again = edge("a", "b", "knows");
    again.source_ref_keys = Some("|r1|r2|".into());
    again.properties = Some("{}".into());
    g.upsert_edges(&[first.clone()]);
    g.upsert_edges(&[again]);
    let rows = g.edges_from("a");
    assert_eq!(rows.len(), 1);
    assert_eq!(rows[0].source_ref_keys.as_deref(), Some("|r1|r2|"));
    assert_eq!(rows[0].properties, first.properties);
    assert!(g.release_edges("r2").is_empty());
    assert_eq!(g.edges_from("a"), vec![first.clone()]);
    assert_eq!(g.release_edges("r1"), vec![first]);
    assert_eq!(g.edge_count(), 0);
}

#[test]
fn columns_are_qualified() {
    assert_eq!(qualified("id, name", "n"), "n.id, n.name");
}
