use reflect_mem::recall::{
    answered, edge_lines, empty_outcome, join_bounded, node_label, node_lines, props_field,
    question, seed_table, truncate, RecallOptions, SearchType, DEFAULT_SYSTEM_PROMPT,
    MAX_CONTEXT_CHARS,
};
use reflect_mem::storage::graph::{GraphEdge, GraphNode, GraphStore};
use reflect_mem::storage::vector::{VectorHit, TABLE_ENTITY, TABLE_TEXT_SUMMARY};

fn node(id: &str, name: Option<&str>, type_: Option<&str>, properties: Option<&str>) -> GraphNode {
    GraphNode {
        id: id.into(),
        name: name.map(str::to_string),
        type_: type_.map(str::to_string),
        created_at: None,
        updated_at: None,
        properties: properties.map(str::to_string),
        source_ref_keys: None,
        source_dataset_ids: None,
        source_run_ids: None,
        source_run_refs: None,
    }
}

fn edge(from: &str, to: &str, rel: Option<&str>, properties: Option<&str>) -> GraphEdge {
    GraphEdge {
        from_id: from.into(),
        to_id: to.into(),
        relationship_name: rel.map(str::to_string),
        created_at: None,
        updated_at: None,
        properties: properties.map(str::to_string),
        source_ref_keys: None,
        source_dataset_ids: None,
        source_run_ids: None,
        source_run_refs: None,
    }
}

fn hit(id: &str, text: Option<&str>) -> VectorHit<f32> {
    VectorHit {
        id: id.into(),
        distance: 0.25,
        text: text.map(str::to_string),
        node_type: None,
        document_id: None,
        document_name: None,
    }
}

#[test]
fn parses_search_types_case_insensitively() {
    assert_eq!(
        SearchType::parse("summaries").unwrap(),
        SearchType::Summaries
    );
    assert_eq!(
        SearchType::parse(" graph_completion ").unwrap(),
        SearchType::GraphCompletion
    );
    assert!(SearchType::parse("chunks").is_err());
}

#[test]
fn search_types_read_back_and_unknown_ones_are_named() {
    for t in [SearchType::Summaries, SearchType::GraphCompletion] {
        assert_eq!(SearchType::parse(t.as_str()).unwrap(), t);
    }
    assert_eq!(SearchType::parse("Summary").unwrap(), SearchType::Summaries);
    assert_eq!(SearchType::parse("GRAPH").unwrap(), SearchType::GraphCompletion);
    assert_eq!(SearchType::parse(" chunks ").unwrap_err().given, "CHUNKS");
}

#[test]
fn reads_fields_out_of_properties_json() {
    let props = r#"{"description":"hello","edge_text":"linking","n":7}"#;
    assert_eq!(
        props_field(Some(props), "description").as_deref(),
        Some("hello")
    );
    assert_eq!(
        props_field(Some(props), "edge_text").as_deref(),
        Some("linking")
    );
    assert_eq!(props_field(Some(props), "n").as_deref(), Some("7"));
    assert_eq!(props_field(Some(props), "missing"), None);
    assert_eq!(props_field(None, "description"), None);
    assert_eq!(props_field(Some("not json"), "description"), None);
}

#[test]
fn blank_and_structured_fields_say_nothing() {
    let props = r#"{"a":"  ","b":[1],"c":null,"d":1.5,"e":true}"#;
    assert_eq!(props_field(Some(props), "a"), None);
    assert_eq!(props_field(Some(props), "b"), None);
    assert_eq!(props_field(Some(props), "c"), None);
    assert_eq!(props_field(Some(props), "d").as_deref(), Some("1.5"));
    assert_eq!(props_field(Some(props), "e"), None);
}

#[test]
fn truncate_is_char_safe() {
    assert_eq!(truncate("abc", 5), "abc");
    assert_eq!(truncate("abcdef", 3), "abc…");
    // multi-byte must not panic or split a codepoint
    assert_eq!(truncate("开发习惯", 2), "开发…");
}

#[test]
fn node_label_falls_back_to_type() {
    let mut n = GraphNode {
        id: "x".into(),
        name: Some(String::new()),
        type_: Some("DocumentChunk".into()),
        created_at: None,
        updated_at: None,
        properties: None,
        source_ref_keys: None,
        source_dataset_ids: None,
        source_run_ids: None,
        source_run_refs: None,
    };
    assert_eq!(node_label(&n), "[DocumentChunk]");
    n.name = Some("可读的名字".into());
    assert_eq!(node_label(&n), "[DocumentChunk] 可读的名字");
}

#[test]
fn context_is_bounded() {
    let lines: Vec<String> = (0..1000)
        .map(|i| format!("line {i} {}", "x".repeat(100)))
        .collect();
    let joined = join_bounded(&lines);
    assert!(joined.chars().count() <= MAX_CONTEXT_CHARS + 40);
    assert!(joined.ends_with("(context truncated)"));
}

#[test]
fn few_lines_are_joined_whole() {
    assert_eq!(join_bounded(&["a".into(), "b".into()]), "a\nb");
    assert_eq!(join_bounded(&[]), "");
    let exact = "x".repeat(MAX_CONTEXT_CHARS - 1);
    assert_eq!(join_bounded(&[exact.clone()]), exact);
    let over = "x".repeat(MAX_CONTEXT_CHARS);
    assert_eq!(join_bounded(&[over]), "\n… (context truncated)");
}

#[test]
fn nodes_and_edges_are_spelled_out() {
    let a = node("a", Some("Alice"), Some("Person"), Some(r#"{"text":"t","name":"n"}"#));
    let b = node("b", None, None, None);
    assert_eq!(
        node_lines(&[a.copy(), b.copy()]),
        vec!["[Person] Alice — t", "[Node]"]
    );
    let edges = vec![
        edge("a", "b", Some("knows"), Some(r#"{"edge_text":"since then"}"#)),
        edge("b", "z", None, None),
    ];
    assert_eq!(
        edge_lines(&edges, &[a, b]),
        vec!["Alice -[knows]-> [Node] (since then)", "[Node] -[related_to]-> z"]
    );
}

#[test]
fn summaries_are_asked_about() {
    let graph = GraphStore::open_in_memory();
    let opts = RecallOptions::default();
    assert_eq!(opts.top_k, 5);
    assert_eq!(opts.max_hops, 2);
    let hits = vec![hit("1", Some("first")), hit("2", None), hit("3", Some("third"))];
    let q = question("why?", &opts, &hits, &graph).unwrap();
    assert_eq!(q.system, DEFAULT_SYSTEM_PROMPT);
    assert_eq!(q.user, "Memory context:\nfirst\nthird\n\nQuestion: why?");
    assert_eq!(q.context_chars, 11);
    let out = answered(opts.search_type, hits, &q, "because".into());
    assert_eq!(out.answer, "because");
    assert_eq!(out.seeds.len(), 3);
    assert_eq!(out.reached_nodes, 0);
}

#[test]
fn the_graph_around_the_seeds_is_asked_about() {
    let mut graph = GraphStore::open_in_memory();
    graph.insert_nodes(&[
        node("a", Some("Alice"), Some("Person"), None),
        node("b", Some("Acme"), Some("Company"), None),
        node("c", Some("Far"), Some("Place"), None),
    ]);
    graph.insert_edges(&[
        edge("a", "b", Some("works_at"), None),
        edge("b", "c", Some("in"), None),
    ]);
    let opts = RecallOptions {
        search_type: SearchType::GraphCompletion,
        top_k: 5,
        max_hops: 1,
        system_prompt: Some("be brief".into()),
    };
    let q = question("where?", &opts, &[hit("a", None)], &graph).unwrap();
    assert_eq!(q.system, "be brief");
    assert_eq!(
        q.user,
        "Memory context:\nEntities:\n[Person] Alice\n[Company] Acme\n\nRelationships:\n\
         Alice -[works_at]-> Acme\n\nQuestion: where?"
    );
    assert_eq!(q.reached_nodes, 2);
    assert_eq!(q.reached_edges, 1);
}

#[test]
fn nothing_found_is_said_plainly() {
    let graph = GraphStore::open_in_memory();
    let opts = RecallOptions::default();
    assert!(question::<f32>("q", &opts, &[], &graph).is_none());
    assert!(question("q", &opts, &[hit("1", Some("  "))], &graph).is_none());
    let out = empty_outcome::<f32>(SearchType::Summaries);
    assert_eq!(out.answer, "未找到相关记忆。");
    assert_eq!(out.context_chars, 0);
    assert!(out.seeds.is_empty());
}

#[test]
fn each_search_has_its_table() {
    assert_eq!(seed_table(SearchType::Summaries), TABLE_TEXT_SUMMARY);
    assert_eq!(seed_table(SearchType::GraphCompletion), TABLE_ENTITY);
}
