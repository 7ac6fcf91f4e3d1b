use reflect_mem::json::{doc_text, parse_doc};
use reflect_mem::storage::dashless::{dashless, is_dashable, parse_dashless};
use reflect_mem::storage::relational::{
    completed_status, default_user_id_value, format_micros, json_pipeline_status, run_key,
    sqlite_now_micros, DataInsert, DataRow, DatasetKey, DatasetRow, RelationalError,
    RelationalStore, StatusError, UserRow, DEFAULT_USER_EMAIL,
};
use reflect_mem::uid::Uuid;

fn id(n: u128) -> Uuid {
    Uuid { value: n }
}

fn empty_store() -> RelationalStore {
    RelationalStore::open(Vec::new(), Vec::new(), Vec::new()).unwrap()
}

fn dataset(id: &str, name: Option<&str>) -> DatasetRow {
    DatasetRow {
        id: id.into(),
        name: name.map(str::to_string),
        created_at: None,
        updated_at: None,
        owner_id: None,
    }
}

fn insert<'a>(data: Uuid, dataset: Uuid, hash: &'a str) -> DataInsert<'a> {
    DataInsert {
        id: data,
        name: "text_h",
        mime_type: "text/plain",
        extension: "txt",
        raw_data_location: "file:///x",
        owner_id: "owner".into(),
        dataset_id: dataset,
        content_hash: hash,
        raw_content_hash: hash,
        token_count: 3,
        data_size: 4,
        run_id: id(77),
    }
}

#[test]
fn dashless_roundtrip() {
    let nil = Uuid::nil();
    assert_eq!(parse_dashless(&dashless(nil)).unwrap(), nil);
    assert_eq!(
        parse_dashless("58ab7a916767556dbe2c624d9c12128d").unwrap(),
        Uuid::parse_str("58ab7a91-6767-556d-be2c-624d9c12128d").unwrap()
    );
}

#[test]
fn timestamp_matches_sqlite_datetime_string() {
    // 2026-08-24 06:28:29.770371 has 6-digit microseconds
    let s = sqlite_now_micros();
    assert_eq!(s.len(), 26);
    assert_eq!(&s[10..11], " ");
    assert_eq!(&s[19..20], ".");
}

#[test]
fn pipeline_status_shape() {
    let v = parse_doc(&json_pipeline_status(
        "run-1",
        "DATA_ITEM_PROCESSING_STARTED",
    ))
    .unwrap();
    assert!(v
        .get("add_pipeline")
        .unwrap()
        .get_str("run-1")
        .unwrap()
        .contains("COMPLETED"));
}

#[test]
fn open_bootstraps_an_empty_store() {
    let store = empty_store();
    // A fresh store must be usable without any external setup step.
    let expected = dashless(default_user_id_value());
    assert_eq!(store.default_user_id().unwrap(), expected);

    // Re-opening (and an already-populated store) must be a no-op.
    let users = vec![UserRow {
        id: expected.clone(),
        email: DEFAULT_USER_EMAIL.to_string(),
    }];
    let again = RelationalStore::open(users, Vec::new(), Vec::new()).unwrap();
    assert_eq!(again.default_user_id().unwrap(), expected);
}

#[test]
fn microseconds_have_six_digits() {
    assert_eq!(
        format_micros(1_787_552_909, 770_371),
        "2026-08-24 06:28:29.770371"
    );
    assert_eq!(format_micros(0, 7), "1970-01-01 00:00:00.000007");
}

#[test]
fn stored_identifiers_are_read_with_and_without_dashes() {
    assert_eq!(parse_dashless("58ab7a91-6767-556d-be2c-624d9c12128d"), Uuid::parse_str("58ab7a91-6767-556d-be2c-624d9c12128d"));
    assert!(parse_dashless("zzab7a916767556dbe2c624d9c12128d").is_none());
    assert!(!is_dashable("short"));
    assert!(parse_dashless("short").is_none());
    assert!(!is_dashable("1234567\u{e9}9012345678901234567890123"));
}

#[test]
fn a_foreign_user_with_the_default_identifier_is_refused() {
    let users = vec![UserRow {
        id: dashless(default_user_id_value()),
        email: "someone@else".into(),
    }];
    assert!(matches!(
        RelationalStore::open(users, Vec::new(), Vec::new()),
        Err(RelationalError::DefaultUserTaken)
    ));
}

#[test]
fn rows_that_cannot_be_told_apart_are_refused() {
    let twice = vec![
        dataset("00000000000000000000000000000001", Some("a")),
        dataset("00000000000000000000000000000001", Some("b")),
    ];
    assert!(matches!(
        RelationalStore::open(Vec::new(), twice, Vec::new()),
        Err(RelationalError::BadRows)
    ));
    let short = RelationalStore::open(Vec::new(), vec![dataset("1", Some("a"))], Vec::new());
    assert!(matches!(
        short.unwrap().dataset_id("a"),
        Err(RelationalError::BadId(hex)) if hex == "1"
    ));
}

#[test]
fn datasets_are_made_once_and_found_by_name_or_identifier() {
    let mut s = empty_store();
    let made = s.ensure_dataset_at("main", id(5), "now").unwrap();
    assert_eq!(made, id(5));
    assert_eq!(s.ensure_dataset_at("main", id(6), "later").unwrap(), id(5));
    assert_eq!(s.dataset_id("main").unwrap(), id(5));
    assert_eq!(s.dataset_id_at(&DatasetKey::Id(id(5))).unwrap(), id(5));
    assert_eq!(s.dataset_id_at(&DatasetKey::Name("main".into())).unwrap(), id(5));
    assert!(s.dataset_id(&id(5).to_string()).is_err());
    assert!(matches!(
        s.dataset_id("other"),
        Err(RelationalError::DatasetNotFound(n)) if n == "other"
    ));
    assert!(matches!(
        s.ensure_dataset_at("second", id(5), "now"),
        Err(RelationalError::Duplicate)
    ));
    assert_eq!(s.all_datasets().unwrap(), vec![(id(5), "main".to_string())]);
    s.delete_dataset(&id(5).to_string());
    assert_eq!(s.all_datasets().unwrap().len(), 1);
    s.delete_dataset_at(&DatasetKey::Id(id(5)));
    assert!(s.all_datasets().unwrap().is_empty());
    s.ensure_dataset_at("main", id(7), "now").unwrap();
    s.delete_dataset("main");
    assert!(s.all_datasets().unwrap().is_empty());
}

#[test]
fn unreadable_dataset_rows_are_named() {
    let mut s = RelationalStore::open(
        Vec::new(),
        vec![dataset("zz000000000000000000000000000001", Some("bad"))],
        Vec::new(),
    )
    .unwrap();
    assert!(matches!(s.dataset_id("bad"), Err(RelationalError::BadId(_))));
    assert!(matches!(s.all_datasets(), Err(RelationalError::BadId(_))));
    assert!(matches!(s.ensure_dataset("bad"), Err(RelationalError::BadId(_))));
    assert_eq!(s.delete_all_datasets(), 1);
    let nameless = RelationalStore::open(
        Vec::new(),
        vec![dataset("00000000000000000000000000000001", None)],
        Vec::new(),
    )
    .unwrap();
    assert!(matches!(nameless.all_datasets(), Err(RelationalError::NullName)));
}

#[test]
fn data_is_found_by_content_within_its_dataset() {
    let mut s = empty_store();
    let ds = s.ensure_dataset_at("main", id(5), "now").unwrap();
    s.insert_data_at(&insert(id(9), ds, "h"), "now").unwrap();
    assert_eq!(s.find_data_by_hash("main", "h"), Some(dashless(id(9))));
    assert_eq!(s.find_data_by_hash("main", "other"), None);
    assert_eq!(s.find_data_by_hash("elsewhere", "h"), None);
    assert!(matches!(
        s.insert_data_at(&insert(id(9), ds, "h"), "now"),
        Err(RelationalError::Duplicate)
    ));
    assert_eq!(s.data_ids_for_dataset(ds).unwrap(), vec![id(9)]);
    s.delete_data(id(9));
    assert!(s.data_ids_for_dataset(ds).unwrap().is_empty());
}

#[test]
fn a_run_is_recorded_as_completed() {
    let mut s = empty_store();
    let ds = s.ensure_dataset_at("main", id(5), "now").unwrap();
    s.insert_data_at(&insert(id(9), ds, "h"), "now").unwrap();
    s.mark_data_processed_at(id(9), id(77), "later").unwrap();
    let row: DataRow = s.data_rows().remove(0);
    assert_eq!(row.updated_at.as_deref(), Some("later"));
    assert_eq!(row.created_at.as_deref(), Some("now"));
    let status = parse_doc(row.pipeline_status.as_deref().unwrap()).unwrap();
    let key = run_key(id(77));
    for pipeline in ["add_pipeline", "cognify_pipeline"] {
        assert_eq!(
            status.get(pipeline).unwrap().get_str(&key),
            Some("DATA_ITEM_PROCESSING_COMPLETED")
        );
    }
}

#[test]
fn a_status_that_is_no_object_is_refused() {
    let list = parse_doc("[]").unwrap();
    assert!(matches!(completed_status(list, "r"), Err(StatusError::NotAnObject)));
    let inner = parse_doc("{\"add_pipeline\":1}").unwrap();
    assert!(matches!(
        completed_status(inner, "r"),
        Err(StatusError::EntryNotAnObject)
    ));
    let fresh = completed_status(parse_doc("{}").unwrap(), "r").unwrap();
    assert_eq!(
        doc_text(&fresh),
        "{\"add_pipeline\":{\"r\":\"DATA_ITEM_PROCESSING_COMPLETED\"},\
         \"cognify_pipeline\":{\"r\":\"DATA_ITEM_PROCESSING_COMPLETED\"}}"
    );
}
