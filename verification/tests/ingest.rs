use reflect_mem::ingest::assemble::{build_datapoints, to_rows, Source};
use reflect_mem::ingest::chunk::{chunk_text, estimate_tokens, sentences};
use reflect_mem::ingest::datapoints::{
    chrono_fmt_now, datapoint, datapoint_at, edge_properties, format_utc_secs, iso_from_ms,
    source_ref, run_ref, text_doc, to_graph_node,
};
use reflect_mem::ingest::extract::{
    extract_graph, extraction_prompt, json_candidate, parse_loose, summarize, ExtractError,
    ExtractedEdge, ExtractedGraph, ExtractedNode, EXTRACT_SYSTEM,
};
use reflect_mem::ingest::ids::{
    edge_name, edge_object_id, edge_type_id, entity_id, entity_type_id, node_name, normalize,
    oid_uuid5, text_summary_id,
};
use reflect_mem::json::{doc_text, half, parse_doc, Doc, Fields};
use reflect_mem::storage::refs::provenance_list;
use reflect_mem::uid::Uuid;

const BASE_KEYS: &[&str] = &[
    "created_at",
    "updated_at",
    "ontology_valid",
    "ontology_uri",
    "version",
    "topological_rank",
    "valid_to",
    "metadata",
    "belongs_to_set",
    "source_pipeline",
    "source_task",
    "source_node_set",
    "source_user",
    "source_content_hash",
    "feedback_weight",
    "importance_weight",
];

fn keys(fields: &Fields) -> Vec<&str> {
    fields.iter().map(|f| f.0.as_str()).collect()
}

fn field<'a>(fields: &'a Fields, key: &str) -> &'a Doc {
    &fields.iter().find(|f| f.0 == key).unwrap().1
}

fn found_node(id: &str, name: &str, type_: &str, description: &str) -> ExtractedNode {
    ExtractedNode {
        id: id.into(),
        name: name.into(),
        type_: type_.into(),
        description: description.into(),
    }
}

fn found_edge(from: &str, to: &str, rel: &str) -> ExtractedEdge {
    ExtractedEdge {
        source_node_id: from.into(),
        target_node_id: to.into(),
        relationship_name: rel.into(),
        description: None,
    }
}

fn source() -> Source {
    Source {
        document_id: Uuid::parse_str("00000000-0000-0000-0000-00000000000a").unwrap(),
        doc_name: "text_abc".into(),
        content_hash: "abc".into(),
        dataset_name: "main_dataset".into(),
        created_ms: 1_787_553_535_718,
        updated_at: "2026-08-24 06:38:55".into(),
    }
}

// ---------------------------------------------------------------------------
// Chunks
// ---------------------------------------------------------------------------

#[test]
fn respects_token_budget() {
    let para = "这是一个测试段落。".repeat(400); // ~3600 CJK tokens
    let chunks = chunk_text(&para, 1500);
    assert!(chunks.len() >= 2);
    for c in &chunks {
        assert!(
            estimate_tokens(&c.text) <= 1500 + 200,
            "chunk {} too large: {}",
            c.chunk_index,
            estimate_tokens(&c.text)
        );
    }
}

#[test]
fn keeps_short_text_in_one_chunk() {
    let chunks = chunk_text("短文本，一段话。", 1500);
    assert_eq!(chunks.len(), 1);
    assert_eq!(chunks[0].chunk_index, 0);
    assert_eq!(chunks[0].cut_type, "paragraph_end");
}

#[test]
fn empty_text_yields_no_chunks() {
    assert!(chunk_text("  \n\n  ", 1500).is_empty());
}

#[test]
fn no_chunk_is_over_the_budget() {
    let texts = [
        "中\n\n中",
        "一二三四五六七八九十。十一",
        "a\n\nb\n\nc\n\nd",
        "word word word word. 中文，混合！ end",
        "x                                        y",
    ];
    for text in texts {
        for budget in 1..8 {
            let chunks = chunk_text(text, budget);
            for c in &chunks {
                assert!(estimate_tokens(&c.text) <= budget, "{text:?} {budget} {:?}", c.text);
                assert!(!c.text.is_empty());
                assert_eq!(c.id.to_string().as_bytes()[14], b'4');
            }
            let kept: String = chunks.iter().map(|c| c.text.as_str()).collect();
            let visible = |s: &str| s.chars().filter(|c| !c.is_whitespace()).collect::<String>();
            assert_eq!(visible(&kept), visible(text));
        }
    }
    let chunks = chunk_text("中\n\n中", 2);
    assert_eq!(chunks.len(), 2);
    assert_eq!(chunks[0].cut_type, "paragraph_end");
    let cut = chunk_text("一二三四五。六。", 4);
    let texts: Vec<&str> = cut.iter().map(|c| c.text.as_str()).collect();
    assert_eq!(texts, vec!["一二三四", "五。六。"]);
    assert_eq!(cut[0].cut_type, "sentence_cut");
    assert_eq!(cut[1].cut_type, "paragraph_end");
    assert_eq!(chunk_text("一二。三四。", 0).len(), 2);
}

#[test]
fn normal_forms_stay_as_they_are() {
    for n in 0..=0x10ffffu32 {
        if let Some(c) = char::from_u32(n) {
            let once = normalize(&c.to_string());
            assert_eq!(normalize(&once), once, "{n:x}");
        }
    }
    for s in ["ΟΔΥΣΣΕΥΣ Σ' ΑΣ", "İstanbul'da", "O'Brien's ÉCOLE"] {
        let once = normalize(s);
        assert_eq!(normalize(&once), once);
        assert_eq!(entity_id(&once), entity_id(s));
    }
}

#[test]
fn spelled_times_sort_as_the_times_do() {
    let times = [
        -62_167_219_200_000i64,
        -62_167_219_199_999,
        -1,
        0,
        999,
        1_000,
        951_782_399_999,
        951_782_400_000,
        253_402_300_799_999,
    ];
    for pair in times.windows(2) {
        assert!(iso_from_ms(pair[0]) < iso_from_ms(pair[1]));
    }
    for t in times {
        let iso = iso_from_ms(t);
        assert_eq!(iso.len(), 26);
        assert_eq!(iso[..19], format_utc_secs(t.div_euclid(1000)).replace(' ', "T"));
    }
}

#[test]
fn chunks_keep_every_visible_character_in_order() {
    let text = "One sentence. Another one!\n\nA second paragraph? Yes.\n\n\n  third  ";
    let chunks = chunk_text(text, 4);
    assert!(chunks.len() > 1);
    let kept: String = chunks
        .iter()
        .flat_map(|c| c.text.chars())
        .filter(|c| !c.is_whitespace())
        .collect();
    let given: String = text.chars().filter(|c| !c.is_whitespace()).collect();
    assert_eq!(kept, given);
    for (i, c) in chunks.iter().enumerate() {
        assert_eq!(c.chunk_index, i);
        assert!(!c.text.trim().is_empty());
    }
}

#[test]
fn sentences_keep_the_paragraph() {
    let parts = sentences("甲。乙！丙？丁");
    assert_eq!(parts.concat(), "甲。乙！丙？丁");
    assert!(parts.len() > 1);
}

// ---------------------------------------------------------------------------
// Identifiers
// ---------------------------------------------------------------------------

#[test]
fn reproduces_ids_legacy_wrote() {
    assert_eq!(
        entity_id("开发习惯（通用版）").to_string(),
        "4bd4116f-24c2-505b-8bbd-4d942097c02a"
    );
    assert_eq!(
        entity_id("测试与验证").to_string(),
        "6ae274a7-a13c-5a75-89dc-548c96637e10"
    );
    assert_eq!(
        entity_type_id("concept").to_string(),
        "d2a381fa-3658-5ca6-ada9-2109cfc9331d"
    );
}

#[test]
fn normalization_matches_legacy() {
    assert_eq!(normalize("Alice Smith"), "alice_smith");
    assert_eq!(normalize("O'Brien's"), "obriens");
    assert_eq!(node_name("Alice's"), "alices");
    assert_eq!(edge_name("Works At"), "works_at");
}

#[test]
fn edge_object_id_is_deterministic() {
    let a = "4bd4116f-24c2-505b-8bbd-4d942097c02a";
    let b = "d2a381fa-3658-5ca6-ada9-2109cfc9331d";
    assert_eq!(
        edge_object_id(a, "is_a", b).to_string(),
        edge_object_id(a, "is_a", b).to_string()
    );
}

#[test]
fn named_ids_are_those_of_the_uuid_crate() {
    let expected = uuid::Uuid::new_v5(&uuid::Uuid::NAMESPACE_OID, b"some name");
    assert_eq!(oid_uuid5("some name").to_string(), expected.to_string());
}

#[test]
fn spellings_of_one_name_share_an_id() {
    assert_eq!(entity_id("Alice Smith"), entity_id("ALICE SMITH"));
    assert_eq!(entity_id("O'Brien"), entity_id("obrien"));
    assert_ne!(entity_id("alice"), entity_type_id("alice"));
    assert_ne!(edge_type_id("is_a"), entity_id("is_a"));
}

#[test]
fn names_fold_beyond_ascii() {
    assert_eq!(normalize("ÉCOLE Ünal"), "école_ünal");
    assert_eq!(node_name("ÉCOLE Ünal"), "école ünal");
}

#[test]
fn summary_id_is_named_within_its_chunk() {
    let chunk = Uuid::parse_str("58ab7a91-6767-556d-be2c-624d9c12128d").unwrap();
    let expected = uuid::Uuid::new_v5(
        &uuid::Uuid::parse_str("58ab7a91-6767-556d-be2c-624d9c12128d").unwrap(),
        b"TextSummary",
    );
    assert_eq!(text_summary_id(chunk).to_string(), expected.to_string());
}

// ---------------------------------------------------------------------------
// Data points
// ---------------------------------------------------------------------------

#[test]
fn timestamp_format_matches_cognee() {
    // 2026-08-24 06:38:55 UTC = 1787553535
    assert_eq!(format_utc_secs(1_787_553_535), "2026-08-24 06:38:55");
}

#[test]
fn provenance_encoding_uses_pipes() {
    assert_eq!(provenance_list(&["a".into()]), "|a|");
    assert_eq!(provenance_list(&["a".into(), "b".into()]), "|a|b|");
}

#[test]
fn entity_properties_key_order_and_content() {
    let dp = datapoint(
        Uuid::nil(),
        "Entity",
        Some("测试".into()),
        0,
        &["name"],
        "测试".into(),
        vec![
            ("description", text_doc("测试描述")),
            ("truth_alignment", Doc::Null),
            ("truth_subspace_signature", Doc::Null),
            ("truth_epoch", Doc::Null),
        ],
        "extract_graph_from_data",
        None,
        None,
    );
    let mut expected = BASE_KEYS.to_vec();
    expected.extend_from_slice(&[
        "description",
        "truth_alignment",
        "truth_subspace_signature",
        "truth_epoch",
    ]);
    assert_eq!(keys(&dp.properties), expected);
    assert_eq!(dp.embeddable_text, "测试");
    assert_eq!(doc_text(field(&dp.properties, "feedback_weight")), "0.5");
    assert_eq!(doc_text(&half()), "0.5");
}

#[test]
fn iso_timestamp_matches_store_format() {
    assert_eq!(iso_from_ms(1_787_553_535_718), "2026-08-24T06:38:55.718000");
}

#[test]
fn edge_properties_shape() {
    let extra = Doc::Object(vec![
        ("relationship_type".to_string(), text_doc("contains")),
        ("edge_text".to_string(), text_doc("Document chunk mentions x: y")),
    ]);
    let p = edge_properties("aaa", "bbb", "contains", Some(extra));
    assert_eq!(
        keys(&p),
        vec![
            "source_node_id",
            "target_node_id",
            "relationship_name",
            "updated_at",
            "relationship_type",
            "edge_text",
            "edge_object_id",
            "feedback_weight",
        ]
    );
}

#[test]
fn clock_text_has_the_shape_of_a_date() {
    let now = chrono_fmt_now();
    assert_eq!(now.len(), 19);
    assert_eq!(&now[4..5], "-");
    assert_eq!(&now[10..11], " ");
    assert!(now.as_str() > "2024-01-01 00:00:00");
}

#[test]
fn times_before_the_epoch_and_leap_days_are_dated() {
    assert_eq!(format_utc_secs(-1), "1969-12-31 23:59:59");
    assert_eq!(format_utc_secs(951_782_400), "2000-02-29 00:00:00");
    assert_eq!(format_utc_secs(0), "1970-01-01 00:00:00");
}

#[test]
fn graph_node_of_a_data_point_reads_back() {
    let dp = datapoint_at(
        1_787_553_535_718,
        Uuid::nil(),
        "Entity",
        Some("a".into()),
        0,
        &["name"],
        "a".into(),
        vec![("description", text_doc("d"))],
        "task",
        None,
        None,
    );
    let n = to_graph_node(&dp, "ds-1", "da-2", "run-3");
    assert_eq!(n.id, "00000000-0000-0000-0000-000000000000");
    assert_eq!(n.created_at.as_deref(), Some("2026-08-24T06:38:55.718000"));
    assert_eq!(n.source_ref_keys.as_deref(), Some("|source_ref:v1:ds-1:da-2|"));
    assert_eq!(n.source_dataset_ids.as_deref(), Some("|ds1|"));
    let read = parse_doc(n.properties.as_deref().unwrap()).unwrap();
    assert_eq!(read.get_str("description"), Some("d"));
    assert_eq!(
        doc_text(read.get("metadata").unwrap()),
        "{\"index_fields\":[\"name\"]}"
    );
}

#[test]
fn provenance_entries_name_dataset_and_data() {
    assert_eq!(source_ref("ds", "da"), "source_ref:v1:ds:da");
    assert_eq!(run_ref("r", "ds", "da"), "source_run_ref:v1:r:source_ref:v1:ds:da");
}

// ---------------------------------------------------------------------------
// What the model finds
// ---------------------------------------------------------------------------

#[test]
fn parses_plain_json() {
    let d = parse_doc(
        r#"{"nodes":[{"id":"a","name":"A","type":"Person","description":"d"}],"edges":[]}"#,
    )
    .unwrap();
    match d.get("nodes").unwrap() {
        Doc::List(items) => assert_eq!(items[0].get_str("name"), Some("A")),
        _ => panic!("nodes is not a list"),
    }
}

#[test]
fn parse_loose_survives_fences_and_prose() {
    let s = parse_loose("```json\n{\"summary\": \"hi\"}\n```").unwrap();
    assert_eq!(s.get_str("summary"), Some("hi"));
    let s = parse_loose("好的，结果如下：{\"summary\": \"结果\"} 请查收。").unwrap();
    assert_eq!(s.get_str("summary"), Some("结果"));
}

#[test]
fn parse_loose_strips_reasoning_tail() {
    let s = parse_loose("思考过程...</think>{\"summary\": \"答案\"}").unwrap();
    assert_eq!(s.get_str("summary"), Some("答案"));
}

#[test]
fn a_reply_without_json_is_refused() {
    assert!(matches!(parse_loose("no json here"), Err(ExtractError::NotJson(_))));
    assert_eq!(json_candidate("  plain  "), "plain");
}

#[test]
fn a_graph_without_nodes_is_refused() {
    assert!(matches!(
        extract_graph(ExtractedGraph::default()),
        Err(ExtractError::NoNodes)
    ));
    let one = ExtractedGraph {
        nodes: vec![found_node("a", "A", "Person", "")],
        edges: vec![],
    };
    assert_eq!(extract_graph(one).unwrap().nodes[0].name, "A");
}

#[test]
fn a_custom_prompt_replaces_the_built_in_one() {
    assert_eq!(extraction_prompt(None), EXTRACT_SYSTEM);
    assert_eq!(
        extraction_prompt(Some("p")),
        "p\n\nRespond with ONLY a JSON object of the exact schema described above."
    );
    assert_eq!(summarize("  s \n"), "s");
}

// ---------------------------------------------------------------------------
// Assembling
// ---------------------------------------------------------------------------

#[test]
fn a_source_gives_points_and_closed_edges() {
    let chunks = chunk_text("Alice works at Acme.", 1500);
    let graph = ExtractedGraph {
        nodes: vec![
            found_node("alice", "Alice", "Person", "an engineer"),
            found_node("acme", "Acme", "", ""),
            found_node("alice2", "alice", "Person", "again"),
        ],
        edges: vec![
            found_edge("alice", "acme", "Works At"),
            found_edge("alice2", "acme", "works at"),
            found_edge("alice", "nobody", "knows"),
        ],
    };
    let src = source();
    let (points, edges) = build_datapoints(&chunks, &[graph], &["sum".to_string()], &src);
    let types: Vec<&str> = points.iter().map(|p| p.type_.as_str()).collect();
    assert_eq!(
        types,
        vec![
            "TextDocument",
            "DocumentChunk",
            "TextSummary",
            "EntityType",
            "EntityType",
            "Entity",
            "Entity",
        ]
    );
    let ids: Vec<String> = points.iter().map(|p| p.id.to_string()).collect();
    for e in &edges {
        assert!(ids.contains(&e.0), "{} dangles", e.0);
        assert!(ids.contains(&e.1), "{} dangles", e.1);
    }
    let rels: Vec<&str> = edges.iter().map(|e| e.2.as_str()).collect();
    assert_eq!(
        rels,
        vec!["is_part_of", "made_from", "is_a", "contains", "is_a", "contains", "works_at"]
    );
    assert_eq!(points[5].name.as_deref(), Some("alice"));
    assert_eq!(points[2].embeddable_text, "sum");

    let (nodes, rows) = to_rows(&points, &edges, "d-s", "d-a", "r-n");
    assert_eq!(nodes.len(), points.len());
    assert_eq!(rows.len(), edges.len());
    let last = parse_doc(rows[6].properties.as_deref().unwrap()).unwrap();
    assert_eq!(last.get_str("edge_text"), Some("alice works at acme."));
    let told = parse_doc(rows[3].properties.as_deref().unwrap()).unwrap();
    assert_eq!(
        told.get_str("edge_text"),
        Some("Document chunk mentions alice: an engineer")
    );
    assert_eq!(rows[0].source_run_ids.as_deref(), Some("|rn|"));
}
