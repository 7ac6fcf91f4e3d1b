use reflect_mem::doctor::{
    count_healing, embeddable_text, heal_table, live_tables, node_rows, reinserted,
    repair_graph_from_dump, repeated_ids, table_text, DoctorReport,
};
use reflect_mem::forget::{
    finish_forget, forget, index_fields, resolve_target, ForgetError, ForgetReport, ForgetTarget,
};
use reflect_mem::ingest::assemble::Source;
use reflect_mem::ingest::extract::{ExtractedEdge, ExtractedGraph, ExtractedNode};
use reflect_mem::ingest::ids::{edge_type_id, entity_id};
use reflect_mem::json::parse_doc;
use reflect_mem::mcp::{
    authorized, forget_reply, forget_target, parse_uuid, recall_options, remember_reply,
    target_dataset, token_matches, ForgetParams, RecallParams, RememberParams, RequestError,
};
use reflect_mem::migrate::{
    data_lines, failure_text, import, DumpSummary, MetadataRow,
};
use reflect_mem::recall::SearchType;
use reflect_mem::remember::{
    chunk_source, commit, finish, md5_hex, plan, register, Intake, Plan, RememberError,
    RememberReport,
};
use reflect_mem::storage::graph::{GraphEdge, GraphNode, GraphStore};
use reflect_mem::storage::relational::{DatasetKey, RelationalError, RelationalStore};
use reflect_mem::storage::vector_writer::group_points;
use reflect_mem::uid::Uuid;

fn id(n: u128) -> Uuid {
    Uuid { value: n }
}

fn node(id: &str, type_: &str, properties: &str, refs: &str) -> GraphNode {
    GraphNode {
        id: id.into(),
        name: Some(id.into()),
        type_: Some(type_.into()),
        created_at: None,
        updated_at: None,
        properties: Some(properties.into()),
        source_ref_keys: Some(refs.into()),
        source_dataset_ids: None,
        source_run_ids: None,
        source_run_refs: None,
    }
}

fn edge(from: &str, to: &str, rel: &str, refs: &str) -> GraphEdge {
    GraphEdge {
        from_id: from.into(),
        to_id: to.into(),
        relationship_name: Some(rel.into()),
        created_at: None,
        updated_at: None,
        properties: None,
        source_ref_keys: Some(refs.into()),
        source_dataset_ids: None,
        source_run_ids: None,
        source_run_refs: None,
    }
}

fn found(name: &str) -> ExtractedNode {
    ExtractedNode {
        id: name.into(),
        name: name.into(),
        type_: "Person".into(),
        description: String::new(),
    }
}

fn found_graph(names: &[&str]) -> ExtractedGraph {
    ExtractedGraph {
        nodes: names.iter().map(|n| found(n)).collect(),
        edges: vec![ExtractedEdge {
            source_node_id: names[0].into(),
            target_node_id: names[names.len() - 1].into(),
            relationship_name: "knows".into(),
            description: None,
        }],
    }
}

/// Remembers a text: what the write path does, without the outside services.
fn remember_text(
    text: &str,
    n: u128,
    names: &[&str],
    graph: &mut GraphStore,
    relational: &mut RelationalStore,
) -> RememberReport {
    let hash = match plan(text, "main", relational).unwrap() {
        Plan::Store(hash) => hash,
        Plan::Existing(report) => return report,
    };
    let intake = Intake {
        data_id: id(n),
        run_id: id(n + 1),
        fresh_dataset: id(n + 2),
        location: "/x".into(),
        now: "2026-08-24 06:28:29.770371".into(),
    };
    let dataset = register(text, "main", &intake, relational).unwrap();
    let chunks = chunk_source(text);
    let graphs: Vec<ExtractedGraph> = chunks.iter().map(|_| found_graph(names)).collect();
    let summaries: Vec<String> = chunks.iter().map(|_| "sum".to_string()).collect();
    let src = Source {
        document_id: id(n + 3),
        doc_name: format!("text_{hash}"),
        content_hash: hash.clone(),
        dataset_name: "main".into(),
        created_ms: 1_787_553_535_718,
        updated_at: "2026-08-24 06:38:55".into(),
    };
    let done = commit(
        graph,
        &chunks,
        &graphs,
        &summaries,
        &src,
        dataset,
        intake.data_id,
        intake.run_id,
    );
    finish(
        relational,
        "main",
        &hash,
        dataset,
        intake.data_id,
        intake.run_id,
        chunks.len(),
        done.graph_nodes,
        done.graph_edges,
        done.datapoints.len(),
        "later",
    )
    .unwrap()
}

fn ids(graph: &GraphStore) -> Vec<String> {
    let mut all = graph.all_node_ids();
    all.sort();
    all
}

fn stores() -> (GraphStore, RelationalStore) {
    (
        GraphStore::open_in_memory(),
        RelationalStore::open(Vec::new(), Vec::new(), Vec::new()).unwrap(),
    )
}

// ---------------------------------------------------------------------------
// Remembering
// ---------------------------------------------------------------------------

#[test]
fn content_hashes_are_md5() {
    assert_eq!(md5_hex(""), "d41d8cd98f00b204e9800998ecf8427e");
    assert_eq!(md5_hex("abc"), "900150983cd24fb0d6963f7d28e17f72");
}

#[test]
fn blank_text_is_refused() {
    let (_, relational) = stores();
    assert!(matches!(
        plan(" \n\t", "main", &relational),
        Err(RememberError::Empty)
    ));
    assert!(chunk_source("  ").is_empty());
    assert_eq!(chunk_source("a").len(), 1);
}

#[test]
fn remembering_twice_is_a_no_op() {
    let (mut graph, mut relational) = stores();
    let first = remember_text("Alice knows Bob.", 100, &["Alice", "Bob"], &mut graph, &mut relational);
    assert!(!first.skipped_existing);
    assert_eq!(first.chunks, 1);
    assert_eq!(first.graph_nodes, graph.node_count());
    assert_eq!(first.graph_edges, graph.edge_count());
    let nodes = graph.node_count();
    let again = remember_text("Alice knows Bob.", 200, &["Alice", "Bob"], &mut graph, &mut relational);
    assert!(again.skipped_existing);
    assert_eq!(again.data_id, "00000000000000000000000000000064");
    assert_eq!(graph.node_count(), nodes);
    assert_eq!(relational.data_rows().len(), 1);
}

#[test]
fn a_data_item_is_registered_once() {
    let (_, mut relational) = stores();
    let intake = Intake {
        data_id: id(1),
        run_id: id(2),
        fresh_dataset: id(3),
        location: "/x".into(),
        now: "now".into(),
    };
    register("a", "main", &intake, &mut relational).unwrap();
    assert!(matches!(
        register("b", "main", &intake, &mut relational),
        Err(RememberError::Relational(RelationalError::Duplicate))
    ));
    let row = relational.data_rows().remove(0);
    assert_eq!(row.raw_data_location.as_deref(), Some("file:///x"));
    assert_eq!(row.token_count, Some(1));
    assert_eq!(row.data_size, Some(1));
}

#[test]
fn what_is_remembered_is_owned_and_deleted_where_it_was_written() {
    let (mut graph, mut relational) = stores();
    let intake = Intake {
        data_id: id(1),
        run_id: id(2),
        fresh_dataset: id(3),
        location: "/x".into(),
        now: "now".into(),
    };
    let dataset = register("Alice.", "main", &intake, &mut relational).unwrap();
    let chunks = chunk_source("Alice.");
    let src = Source {
        document_id: id(4),
        doc_name: "text_h".into(),
        content_hash: "h".into(),
        dataset_name: "main".into(),
        created_ms: 0,
        updated_at: "1970-01-01 00:00:00".into(),
    };
    let done = commit(
        &mut graph,
        &chunks,
        &[found_graph(&["Alice", "Bob"])],
        &["sum".to_string()],
        &src,
        dataset,
        id(1),
        id(2),
    );
    for p in &done.datapoints {
        let node = graph.node_by_id(&p.id.to_string()).unwrap();
        assert_eq!(
            node.source_ref_keys.as_deref(),
            Some("|source_ref:v1:00000000-0000-0000-0000-000000000003:00000000-0000-0000-0000-000000000001|")
        );
        let properties = parse_doc(node.properties.as_deref().unwrap()).unwrap();
        assert_eq!(properties, p.payload());
    }
    let written: Vec<(String, Vec<String>)> = group_points(&done.datapoints)
        .into_iter()
        .map(|(table, at)| {
            let mut ids: Vec<String> =
                at.iter().map(|k| done.datapoints[*k].id.to_string()).collect();
            ids.sort();
            (table, ids)
        })
        .collect();
    let target = ForgetTarget::Dataset {
        dataset: DatasetKey::Name("main".into()),
    };
    let gone = forget(&target, &mut graph, &mut relational).unwrap();
    let deleted: Vec<(String, Vec<String>)> = gone
        .vector_deletes
        .into_iter()
        .filter(|d| d.0 != "EdgeType_relationship_name")
        .map(|(table, mut ids)| {
            ids.sort();
            (table, ids)
        })
        .collect();
    assert_eq!(deleted, written);
    assert!(relational.data_rows().is_empty());
}

// ---------------------------------------------------------------------------
// Forgetting
// ---------------------------------------------------------------------------

#[test]
fn forgetting_gives_back_what_was_there_before() {
    let (mut graph, mut relational) = stores();
    remember_text("first", 100, &["Alice", "Bob"], &mut graph, &mut relational);
    let nodes = ids(&graph);
    let edges = graph.edge_count();
    remember_text("second", 200, &["Alice", "Carol"], &mut graph, &mut relational);
    let alice = entity_id("Alice").to_string();
    let carol = entity_id("Carol").to_string();
    assert!(graph.node_by_id(&carol).is_some());

    let target = ForgetTarget::DataItem {
        dataset: DatasetKey::Name("main".into()),
        data_id: id(200),
    };
    let done = forget(&target, &mut graph, &mut relational).unwrap();
    assert_eq!(done.report.data_items, 1);
    assert_eq!(ids(&graph), nodes);
    assert_eq!(graph.edge_count(), edges);
    assert!(graph.node_by_id(&carol).is_none());
    assert_eq!(
        graph.node_by_id(&alice).unwrap().source_ref_keys.as_deref(),
        Some("|source_ref:v1:00000000-0000-0000-0000-000000000066:00000000-0000-0000-0000-000000000064|")
    );
    assert_eq!(relational.data_rows().len(), 1);
    // what goes from the vector tables: the document, chunk, summary and entity
    let tables: Vec<&str> = done.vector_deletes.iter().map(|d| d.0.as_str()).collect();
    assert_eq!(
        tables,
        vec!["DocumentChunk_text", "Entity_name", "TextDocument_name", "TextSummary_text"]
    );
    assert_eq!(done.vector_deletes[1].1, vec![carol]);
    let report = finish_forget(&target, &mut relational, done.report, 4);
    assert_eq!(report.vectors_deleted, 4);
    assert_eq!(report.datasets_deleted, 0);
}

#[test]
fn forgetting_a_dataset_drops_it_and_its_relationships() {
    let (mut graph, mut relational) = stores();
    remember_text("first", 100, &["Alice", "Bob"], &mut graph, &mut relational);
    let target = ForgetTarget::Dataset {
        dataset: DatasetKey::Name("main".into()),
    };
    let done = forget(&target, &mut graph, &mut relational).unwrap();
    assert_eq!(graph.node_count(), 0);
    assert_eq!(graph.edge_count(), 0);
    let orphans = done
        .vector_deletes
        .iter()
        .find(|d| d.0 == "EdgeType_relationship_name")
        .unwrap();
    assert!(orphans.1.contains(&edge_type_id("knows").to_string()));
    assert!(orphans.1.contains(&edge_type_id("is_a").to_string()));
    let report = finish_forget(&target, &mut relational, done.report, 0);
    assert_eq!(report.datasets_deleted, 1);
    assert!(relational.all_datasets().unwrap().is_empty());
}

#[test]
fn forgetting_everything_empties_the_stores() {
    let (mut graph, mut relational) = stores();
    remember_text("first", 100, &["Alice", "Bob"], &mut graph, &mut relational);
    remember_text("second", 200, &["Alice", "Carol"], &mut graph, &mut relational);
    let done = forget(&ForgetTarget::Everything, &mut graph, &mut relational).unwrap();
    assert_eq!(done.report.data_items, 2);
    assert_eq!(graph.node_count(), 0);
    assert!(relational.data_rows().is_empty());
    let report = finish_forget(&ForgetTarget::Everything, &mut relational, done.report, 1);
    assert_eq!(report.datasets_deleted, 1);
}

#[test]
fn an_edge_of_two_texts_is_one_row_with_two_owners() {
    let (mut graph, mut relational) = stores();
    remember_text("first", 100, &["Alice", "Bob"], &mut graph, &mut relational);
    let before = graph.edges_from(&entity_id("Alice").to_string());
    remember_text("second", 200, &["Alice", "Carol"], &mut graph, &mut relational);
    let is_a = |graph: &GraphStore| {
        graph
            .edges_from(&entity_id("Alice").to_string())
            .into_iter()
            .filter(|e| e.relationship_name.as_deref() == Some("is_a"))
            .collect::<Vec<_>>()
    };
    let rows = is_a(&graph);
    assert_eq!(rows.len(), 1);
    assert_eq!(rows[0].source_ref_keys.as_deref().unwrap().matches("source_ref:").count(), 2);

    let item = |n: u128| ForgetTarget::DataItem {
        dataset: DatasetKey::Name("main".into()),
        data_id: id(n),
    };
    forget(&item(200), &mut graph, &mut relational).unwrap();
    assert_eq!(graph.edges_from(&entity_id("Alice").to_string()), before);
    remember_text("third", 300, &["Alice", "Bob"], &mut graph, &mut relational);
    forget(&item(100), &mut graph, &mut relational).unwrap();
    assert_eq!(is_a(&graph).len(), 1);
    forget(&item(300), &mut graph, &mut relational).unwrap();
    assert!(is_a(&graph).is_empty());
    assert_eq!(graph.edge_count(), 0);
    assert_eq!(graph.node_count(), 0);
}

#[test]
fn an_identifier_is_no_name() {
    let (mut graph, mut relational) = stores();
    remember_text("first", 100, &["Alice", "Bob"], &mut graph, &mut relational);
    let spelled = id(102).to_string();
    let by_name = resolve_target(None, Some(spelled.clone()), None, false).unwrap();
    assert!(matches!(
        forget(&by_name, &mut graph, &mut relational),
        Err(ForgetError::Relational(RelationalError::DatasetNotFound(n))) if n == spelled
    ));
    let absent = resolve_target(None, None, Some(id(9)), false).unwrap();
    assert!(matches!(
        forget(&absent, &mut graph, &mut relational),
        Err(ForgetError::Relational(RelationalError::DatasetNotFound(n))) if n == id(9).to_string()
    ));
}

#[test]
fn healing_is_counted() {
    let report = DoctorReport {
        nodes_restored: 1,
        edges_deleted: 2,
        vectors_added: 3,
        vectors_purged: 4,
    };
    assert_eq!(
        count_healing(report, 10, 20, 30),
        DoctorReport {
            nodes_restored: 1,
            edges_deleted: 2,
            vectors_added: 13,
            vectors_purged: 54,
        }
    );
}

#[test]
fn a_dataset_is_forgotten_by_its_identifier_too() {
    let (mut graph, mut relational) = stores();
    remember_text("first", 100, &["Alice", "Bob"], &mut graph, &mut relational);
    let target = resolve_target(None, None, Some(id(102)), false).unwrap();
    let done = forget(&target, &mut graph, &mut relational).unwrap();
    assert_eq!(done.report.data_items, 1);
    finish_forget(&target, &mut relational, done.report, 0);
    assert!(relational.all_datasets().unwrap().is_empty());
}

#[test]
fn an_unknown_dataset_changes_nothing() {
    let (mut graph, mut relational) = stores();
    remember_text("first", 100, &["Alice", "Bob"], &mut graph, &mut relational);
    let nodes = graph.node_count();
    let target = ForgetTarget::Dataset {
        dataset: DatasetKey::Name("other".into()),
    };
    assert!(matches!(
        forget(&target, &mut graph, &mut relational),
        Err(ForgetError::Relational(RelationalError::DatasetNotFound(n))) if n == "other"
    ));
    assert_eq!(graph.node_count(), nodes);
}

#[test]
fn targets_are_resolved_in_turn() {
    assert_eq!(
        resolve_target(None, None, None, true).unwrap(),
        ForgetTarget::Everything
    );
    assert_eq!(
        resolve_target(Some(id(1)), Some("d".into()), None, false).unwrap(),
        ForgetTarget::DataItem {
            dataset: DatasetKey::Name("d".into()),
            data_id: id(1)
        }
    );
    assert_eq!(
        resolve_target(None, None, Some(id(1)), false).unwrap(),
        ForgetTarget::Dataset {
            dataset: DatasetKey::Id(id(1))
        }
    );
    assert!(matches!(
        resolve_target(Some(id(1)), None, None, false),
        Err(ForgetError::NoDataset)
    ));
    assert!(matches!(
        resolve_target(None, None, None, false),
        Err(ForgetError::NoTarget)
    ));
}

#[test]
fn index_fields_are_the_texts_of_the_list() {
    let doc = parse_doc("{\"metadata\":{\"index_fields\":[\"a\",1,\"b\"]}}").unwrap();
    assert_eq!(index_fields(&doc), vec!["a", "b"]);
    assert!(index_fields(&parse_doc("{}").unwrap()).is_empty());
    assert!(index_fields(&parse_doc("{\"metadata\":{\"index_fields\":\"a\"}}").unwrap()).is_empty());
}

// ---------------------------------------------------------------------------
// Repairing
// ---------------------------------------------------------------------------

#[test]
fn a_repair_restores_nodes_and_drops_lost_edges() {
    let mut graph = GraphStore::open_in_memory();
    graph.insert_nodes(&[node("a", "Entity", "{}", "|k|")]);
    graph.insert_edges(&[
        edge("a", "b", "x", "|k|"),
        edge("a", "b", "x", "|k|"),
        edge("a", "gone", "x", "|k|"),
    ]);
    let dump = vec![
        parse_doc("{\"id\":\"a\",\"name\":\"not taken\"}").unwrap(),
        parse_doc("{\"id\":\"b\",\"name\":\"B\",\"type\":\"Entity\"}").unwrap(),
        parse_doc("{\"name\":\"no id\"}").unwrap(),
    ];
    let report = repair_graph_from_dump(&mut graph, &dump);
    assert_eq!(report.nodes_restored, 1);
    assert_eq!(report.edges_deleted, 1);
    assert_eq!(ids(&graph), vec!["a", "b"]);
    assert_eq!(graph.edge_count(), 1);
    assert!(graph.edges_with_missing_endpoint().is_empty());
    assert_eq!(graph.node_by_id("a").unwrap().name.as_deref(), Some("a"));

    let mut doubled = GraphStore::open_in_memory();
    doubled.insert_nodes(&[node("a", "Entity", "{}", "|k|")]);
    doubled.insert_edges(&[edge("a", "a", "x", "|k|"), edge("a", "a", "x", "|k|")]);
    assert_eq!(repair_graph_from_dump(&mut doubled, &[]).edges_deleted, 1);
}

#[test]
fn a_healed_table_has_each_live_row_once() {
    let indexed = "{\"metadata\":{\"index_fields\":[\"name\"]},\"text\":\"t\"}";
    let nodes = vec![
        node("a", "Entity", indexed, "|k|"),
        node("b", "Entity", indexed, "|k|"),
        node("c", "Entity", indexed, "|k|"),
        node("d", "Other", "{}", "|k|"),
    ];
    let tables = live_tables(&nodes);
    assert_eq!(tables, vec![("Entity_name".to_string(), vec![0, 1, 2])]);
    let at = &tables[0].1;
    let mut rows: Vec<String> = ["a", "b", "b", "z", "z"].iter().map(|s| s.to_string()).collect();
    let plan = heal_table(&nodes, at, &rows);
    assert_eq!(plan.missing, vec![2]);
    assert_eq!(plan.stale, vec!["z"]);
    for m in &plan.missing {
        rows.push(nodes[*m].id.clone());
    }
    rows.retain(|r| !plan.stale.contains(r));
    let repeats = repeated_ids(&rows);
    assert_eq!(repeats, vec!["b"]);
    rows.retain(|r| !repeats.contains(r));
    for m in reinserted(&nodes, at, &repeats) {
        rows.push(nodes[m].id.clone());
    }
    rows.sort();
    assert_eq!(rows, vec!["a", "b", "c"]);
    rows.reverse();
    let again = heal_table(&nodes, at, &rows);
    assert!(again.missing.is_empty());
    assert!(again.stale.is_empty());
    assert!(repeated_ids(&rows).is_empty());
}

#[test]
fn a_table_holds_the_text_of_its_field() {
    let n = node("a", "DocumentChunk", "{\"text\":\"body\"}", "|k|");
    assert_eq!(embeddable_text(&n, "name"), "a");
    assert_eq!(embeddable_text(&n, "text"), "body");
    assert_eq!(embeddable_text(&n, "missing"), "");
    assert_eq!(table_text("DocumentChunk_text", &n), "body");
    assert_eq!(table_text("Elsewhere_text", &n), "a");
    let rows = node_rows(&[n], &[0], vec![vec![1u8]]);
    assert_eq!(rows[0].payload.get_str("text"), Some("body"));
    assert_eq!(rows[0].payload.get_str("type"), Some("DocumentChunk"));
}

// ---------------------------------------------------------------------------
// Importing
// ---------------------------------------------------------------------------

fn summary(nodes: i64, edges: i64, metadata: i64) -> Option<DumpSummary> {
    Some(DumpSummary {
        nodes,
        edges,
        metadata,
        storage_version: None,
        source: None,
    })
}

#[test]
fn blank_lines_of_a_dump_are_skipped() {
    let lines: Vec<String> = ["{}", "  ", "", "[]"].iter().map(|s| s.to_string()).collect();
    assert_eq!(
        data_lines(&lines),
        vec![(1, "{}".to_string()), (4, "[]".to_string())]
    );
}

#[test]
fn an_import_is_reconciled() {
    let nodes = || vec![node("a", "E", "{}", ""), node("b", "E", "{}", "")];
    let edges = || vec![edge("a", "b", "x", "")];
    let metadata = || {
        vec![MetadataRow {
            key: "k".into(),
            value: None,
        }]
    };
    let (graph, report) = import(nodes(), edges(), metadata(), &summary(2, 1, 1));
    let report = report.unwrap();
    assert_eq!(report.nodes, 2);
    assert_eq!(report.edges, 1);
    assert_eq!(report.metadata, 1);
    assert_eq!(graph.metadata("k").as_deref(), Some(""));
    assert!(import(nodes(), edges(), metadata(), &None).1.is_ok());

    let (graph, report) = import(nodes(), edges(), metadata(), &summary(3, -1, 1));
    assert_eq!(graph.node_count(), 2);
    let problems = report.unwrap_err();
    assert_eq!(
        problems,
        vec!["nodes: summary says 3, imported 2", "edges: summary says -1, imported 1"]
    );
    let twice = vec![node("a", "E", "{}", ""), node("a", "E", "{}", "")];
    let problems = import(twice, edges(), metadata(), &None).1.unwrap_err();
    assert_eq!(
        failure_text(&problems),
        "import reconciliation failed:\n  - nodes: inserted 2, db holds 1"
    );
}

// ---------------------------------------------------------------------------
// The server's tools
// ---------------------------------------------------------------------------

fn recall_params(search_type: Option<&str>, top_k: Option<usize>, hops: Option<u32>) -> RecallParams {
    RecallParams {
        query: "q".into(),
        search_type: search_type.map(str::to_string),
        top_k,
        hops,
    }
}

#[test]
fn recall_parameters_are_kept_within_bounds() {
    let o = recall_options(&recall_params(None, None, None)).unwrap();
    assert_eq!((o.search_type, o.top_k, o.max_hops), (SearchType::Summaries, 5, 2));
    let o = recall_options(&recall_params(Some("graph"), Some(0), Some(9))).unwrap();
    assert_eq!((o.search_type, o.top_k, o.max_hops), (SearchType::GraphCompletion, 1, 6));
    let o = recall_options(&recall_params(None, Some(99), Some(0))).unwrap();
    assert_eq!((o.top_k, o.max_hops), (50, 0));
    assert!(recall_options(&recall_params(Some("x"), None, None)).is_err());
}

#[test]
fn forget_parameters_must_name_something() {
    let params = |data_id: Option<&str>, dataset: Option<&str>, dataset_id: Option<&str>| ForgetParams {
        data_id: data_id.map(str::to_string),
        dataset: dataset.map(str::to_string),
        dataset_id: dataset_id.map(str::to_string),
        everything: false,
    };
    assert!(matches!(
        forget_target(&params(Some("x"), None, None)),
        Err(RequestError::NotUuid { what, given }) if what == "data_id" && given == "x"
    ));
    assert!(matches!(
        forget_target(&params(None, None, Some("y"))),
        Err(RequestError::NotUuid { what, .. }) if what == "dataset_id"
    ));
    assert!(matches!(
        forget_target(&params(None, None, None)),
        Err(RequestError::Target(ForgetError::NoTarget))
    ));
    assert_eq!(
        forget_target(&params(None, Some("d"), None)).unwrap(),
        ForgetTarget::Dataset {
            dataset: DatasetKey::Name("d".into())
        }
    );
    assert!(parse_uuid("58ab7a91-6767-556d-be2c-624d9c12128d", "x").is_ok());
    let p = RememberParams {
        data: "t".into(),
        dataset_name: None,
        custom_prompt: None,
    };
    assert_eq!(target_dataset(&p), "main_dataset");
}

#[test]
fn replies_give_the_counts() {
    let report = ForgetReport {
        data_items: 1,
        nodes_deleted: 2,
        nodes_detached: 3,
        edges_deleted: 4,
        vectors_deleted: 5,
        datasets_deleted: 6,
    };
    assert_eq!(
        forget_reply(&report),
        "Forgot 1 data item(s): removed 2 nodes (3 shared kept), 4 edges, 5 vectors, 6 datasets."
    );
    let mut stored = RememberReport {
        dataset: "d".into(),
        data_id: "i".into(),
        content_hash: "h".into(),
        chunks: 1,
        graph_nodes: 2,
        graph_edges: 3,
        vectors: 4,
        skipped_existing: false,
    };
    assert_eq!(
        remember_reply(&stored),
        "Stored in dataset 'd': 1 chunk(s), +2 graph nodes, +3 edges, 4 vectors. data_id=i"
    );
    stored.skipped_existing = true;
    assert_eq!(
        remember_reply(&stored),
        "Already stored (dataset=d, data_id=i); nothing to do."
    );
}

#[test]
fn only_the_expected_token_passes() {
    assert!(token_matches("s3cret", "s3cret"));
    assert!(!token_matches("s3creT", "s3cret"));
    assert!(!token_matches("s3cret ", "s3cret"));
    assert!(!token_matches("", "s3cret"));
    assert!(authorized(Some("Bearer  s3cret "), "s3cret"));
    assert!(!authorized(Some("bearer s3cret"), "s3cret"));
    assert!(!authorized(Some("s3cret"), "s3cret"));
    assert!(!authorized(None, "s3cret"));
    assert!(!authorized(None, ""));
    assert!(!authorized(Some("s3cret"), ""));
    assert!(authorized(Some("Bearer  "), ""));
}
