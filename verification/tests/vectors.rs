use reflect_mem::ingest::datapoints::{datapoint_at, text_doc, Datapoint};
use reflect_mem::json::{doc_text, parse_doc, Doc, Num};
use reflect_mem::storage::vector::{
    hits_of, id_filter, validate, Found, VectorError, TABLE_DOCUMENT_CHUNK, TABLE_EDGE_TYPE,
    TABLE_ENTITY, TABLE_ENTITY_TYPE, TABLE_SESSION_QA, TABLE_TEXT_DOCUMENT, TABLE_TEXT_SUMMARY,
};
use reflect_mem::storage::vector_writer::{
    array_for, build_batch, canonical_schema, group_points, group_texts, point_rows, row_payload,
    BatchError, Column, DataType, Field, Schema, VectorRow,
};
use reflect_mem::uid::Uuid;

fn schema() -> Schema {
    canonical_schema(4)
}

fn field(name: &str, data_type: DataType) -> Field {
    Field {
        name: name.into(),
        data_type,
        nullable: true,
    }
}

fn payload_column<'a>(schema: &Schema, columns: &'a [Column], name: &str) -> &'a Column {
    match &schema.fields[2].data_type {
        DataType::Struct(fields) => {
            let i = fields.iter().position(|f| f.name == name).unwrap();
            &columns[i]
        }
        _ => panic!("payload is not a struct"),
    }
}

fn point(type_: &str, text: &str, index: &[&str]) -> Datapoint {
    datapoint_at(
        7,
        Uuid::nil(),
        type_,
        None,
        0,
        index,
        text.into(),
        vec![("text", text_doc(text))],
        "task",
        None,
        None,
    )
}

#[test]
fn table_constants_are_distinct() {
    let all = [
        TABLE_ENTITY,
        TABLE_DOCUMENT_CHUNK,
        TABLE_TEXT_DOCUMENT,
        TABLE_TEXT_SUMMARY,
        TABLE_ENTITY_TYPE,
        TABLE_EDGE_TYPE,
        TABLE_SESSION_QA,
    ];
    let mut sorted = all.to_vec();
    sorted.sort_unstable();
    sorted.dedup();
    assert_eq!(sorted.len(), all.len());
}

#[test]
fn builds_batch_against_canonical_schema() {
    let payload = parse_doc(
        r#"{
            "id": "abc",
            "created_at": 1787553535718,
            "updated_at": 1787553535718,
            "ontology_valid": false,
            "version": 1,
            "topological_rank": 0,
            "type": "Entity",
            "feedback_weight": 0.5,
            "importance_weight": 0.5,
            "text": null
        }"#,
    )
    .unwrap();
    let rows = vec![VectorRow {
        id: "abc".into(),
        vector: vec![0.1f32, 0.2, 0.3, 0.4],
        payload,
    }];
    let schema = schema();
    let batch = build_batch(&schema, &rows).unwrap();
    assert_eq!(batch.ids.len(), 1);
    assert_eq!(batch.ids[0], "abc");
    assert_eq!(batch.vectors, vec![0.1f32, 0.2, 0.3, 0.4]);
    match payload_column(&schema, &batch.payload, "version") {
        Column::Ints(list) => assert_eq!(list[0], Some(1)),
        other => panic!("version is {other:?}"),
    }
    // missing keys become null
    match payload_column(&schema, &batch.payload, "text") {
        Column::Texts(list) => assert!(list[0].is_none()),
        other => panic!("text is {other:?}"),
    }
    match payload_column(&schema, &batch.payload, "source_user") {
        Column::Texts(list) => assert!(list[0].is_none()),
        other => panic!("source_user is {other:?}"),
    }
    match payload_column(&schema, &batch.payload, "ontology_valid") {
        Column::Bools(list) => assert_eq!(list[0], Some(false)),
        other => panic!("ontology_valid is {other:?}"),
    }
    match payload_column(&schema, &batch.payload, "feedback_weight") {
        Column::Numbers(list) => match &list[0] {
            Some(Num::Float(f)) => assert_eq!(f.number().as_f64(), Some(0.5)),
            other => panic!("feedback_weight is {other:?}"),
        },
        other => panic!("feedback_weight is {other:?}"),
    }
}

#[test]
fn rejects_dimension_mismatch() {
    let rows = vec![VectorRow {
        id: "abc".into(),
        vector: vec![0.1f32, 0.2],
        payload: parse_doc("{}").unwrap(),
    }];
    assert!(build_batch(&schema(), &rows).is_err());
    assert_eq!(
        build_batch(&schema(), &rows).unwrap_err(),
        BatchError::Dimensions {
            found: 2,
            expected: 4
        }
    );
}

#[test]
fn tables_of_another_shape_are_refused() {
    let rows: Vec<VectorRow<f32>> = Vec::new();
    let two = Schema {
        fields: vec![field("id", DataType::Utf8), field("v", DataType::Utf8)],
    };
    assert_eq!(build_batch(&two, &rows).unwrap_err(), BatchError::Columns(2));
    let mut flat = schema();
    flat.fields[1].data_type = DataType::Utf8;
    assert_eq!(build_batch(&flat, &rows).unwrap_err(), BatchError::NotFixedSize);
    let mut plain = schema();
    plain.fields[2].data_type = DataType::Utf8;
    assert_eq!(build_batch(&plain, &rows).unwrap_err(), BatchError::NotStruct);
    let mut odd = schema();
    odd.fields[2].data_type = DataType::Struct(vec![
        field("text", DataType::Utf8),
        field("when", DataType::Other("Date32".into())),
        field("width", DataType::Float32),
    ]);
    assert_eq!(
        build_batch(&odd, &rows).unwrap_err(),
        BatchError::Unsupported("when".into())
    );
}

#[test]
fn lists_stand_one_behind_the_other() {
    let f = field("tags", DataType::List(Box::new(field("item", DataType::Utf8))));
    let a = parse_doc("[\"x\",1,\"y\"]").unwrap();
    let b = parse_doc("\"no list\"").unwrap();
    let c = parse_doc("[\"z\"]").unwrap();
    let d = parse_doc("null").unwrap();
    let e = parse_doc("[]").unwrap();
    match array_for(&f, &[Some(&a), Some(&b), None, Some(&c), Some(&d), Some(&e)]).unwrap() {
        Column::Lists { present, offsets, items } => {
            assert_eq!(present, vec![true, true, false, true, false, true]);
            assert_eq!(offsets, vec![0, 3, 3, 3, 4, 4, 4]);
            assert_eq!(
                items,
                vec![Some("x".to_string()), None, Some("y".to_string()), Some("z".to_string())]
            );
        }
        other => panic!("{other:?}"),
    }
}

#[test]
fn cells_of_another_type_are_null() {
    let text = parse_doc("\"5\"").unwrap();
    let big = parse_doc("18446744073709551615").unwrap();
    match array_for(&field("n", DataType::Int64), &[Some(&text), Some(&big)]).unwrap() {
        Column::Ints(list) => assert_eq!(list, vec![None, None]),
        other => panic!("{other:?}"),
    }
    match array_for(&field("n", DataType::Float64), &[Some(&text), Some(&big)]).unwrap() {
        Column::Numbers(list) => {
            assert_eq!(list, vec![None, Some(Num::Pos(18446744073709551615))])
        }
        other => panic!("{other:?}"),
    }
    assert_eq!(
        array_for(&field("f", DataType::Float32), &[]).unwrap_err(),
        BatchError::Unsupported("f".into())
    );
}

#[test]
fn data_points_are_grouped_by_table() {
    let dps = vec![
        point("TextSummary", "s1", &["text"]),
        point("Entity", "e1", &["name", "other"]),
        point("TextSummary", "s2", &["text"]),
        point("Bare", "b", &[]),
    ];
    let groups = group_points(&dps);
    assert_eq!(
        groups,
        vec![
            ("Bare_name".to_string(), vec![3]),
            ("Entity_name".to_string(), vec![1]),
            ("TextSummary_text".to_string(), vec![0, 2]),
        ]
    );
    assert_eq!(group_texts(&dps, &groups[2].1), vec!["s1", "s2"]);
    let rows = point_rows(&dps, &groups[2].1, vec![vec![1.0f32], vec![2.0]]);
    assert_eq!(rows.len(), 2);
    assert_eq!(rows[1].vector, vec![2.0]);
    assert_eq!(rows[1].id, "00000000-0000-0000-0000-000000000000");
    assert_eq!(rows[1].payload.get_str("text"), Some("s2"));
    assert_eq!(rows[1].payload.get_str("type"), Some("TextSummary"));
    assert_eq!(
        rows[1].payload.get_str("id"),
        Some("00000000-0000-0000-0000-000000000000")
    );
}

#[test]
fn every_written_payload_fills_the_required_columns() {
    let dps = vec![point("Entity", "e", &["name"])];
    let rows = point_rows(&dps, &[0], vec![vec![0f32; 4]]);
    let schema = schema();
    let batch = build_batch(&schema, &rows).unwrap();
    match payload_column(&schema, &batch.payload, "id") {
        Column::Texts(list) => assert!(list[0].is_some()),
        other => panic!("{other:?}"),
    }
    assert_eq!(
        doc_text(&row_payload(Doc::Null, "i", "t")),
        "{\"id\":\"i\",\"type\":\"t\"}"
    );
}

#[test]
fn hits_are_read_row_by_row() {
    let batches = vec![
        Found {
            rows: 2,
            ids: Some(vec!["a".to_string(), "b".to_string()]),
            distances: Some(vec![0.5f32, 1.5]),
            payload: Some(vec![
                ("text".to_string(), vec![Some("t".to_string()), None]),
                ("type".to_string(), vec![Some("Entity".to_string()), None]),
            ]),
        },
        Found {
            rows: 1,
            ids: Some(vec!["c".to_string()]),
            distances: None,
            payload: None,
        },
    ];
    let hits = hits_of(&batches, -1.0).unwrap();
    assert_eq!(hits.len(), 3);
    assert_eq!(hits[0].id, "a");
    assert_eq!(hits[0].distance, 0.5);
    assert_eq!(hits[0].text.as_deref(), Some("t"));
    assert_eq!(hits[0].node_type.as_deref(), Some("Entity"));
    assert_eq!(hits[0].document_id, None);
    assert_eq!(hits[1].text, None);
    assert_eq!(hits[2].distance, -1.0);
    let none = vec![Found::<f32> {
        rows: 0,
        ids: None,
        distances: None,
        payload: None,
    }];
    assert_eq!(hits_of(&none, 0.0).unwrap_err(), VectorError::NoIds);
}

#[test]
fn tables_are_validated() {
    assert_eq!(validate(&schema(), 4), Ok(()));
    assert_eq!(
        validate(&schema(), 5),
        Err(VectorError::Width {
            stored: 4,
            expected: 5
        })
    );
    let none = Schema {
        fields: vec![field("id", DataType::Utf8)],
    };
    assert_eq!(validate(&none, 4), Err(VectorError::NoVectors));
    let text = Schema {
        fields: vec![field("vector", DataType::Utf8)],
    };
    assert_eq!(validate(&text, 4), Err(VectorError::NotFixedSize));
}

#[test]
fn quotes_in_a_condition_are_doubled() {
    assert_eq!(id_filter("a'b"), "id = 'a''b'");
    assert_eq!(id_filter("plain"), "id = 'plain'");
}
