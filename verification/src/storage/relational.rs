//! Relational metadata: users, datasets and data rows.
//!
//! Identifiers are kept as hexadecimal without dashes. A store that is opened
//! has the single user that owns everything written here.

use vstd::prelude::*;
use vstd::string::*;

use crate::calendar::{utc_string, utc_text};
use crate::clock::{micros_in, now_parts, secs_in};
use crate::ingest::datapoints::text_doc;
use crate::ingest::ids::{oid_of, oid_uuid5};
use crate::json::{
    doc_text, doc_view_parts, field_set_keeps_unambiguous, field_views, find_field, json_text,
    key_index, key_index_is_first, object_is_readable, parse_doc, parsed_json, put, readable,
    readable_field, set_field, shallow_object, unambiguous, unambiguous_object, with_field, Doc,
    Fields, Json,
};
use crate::lists::{filter_ends, filter_keeps_order, filter_step, filters_agree, prefix_of_filter};
use crate::number::{pad_int, pad_text};
use crate::storage::dashless::{dashless, parse_dashless, stored_uuid};
use crate::text::{blank, concat3, copy_opt, is_blank, opt_view, or_empty, owned, same};
use crate::uid::{is_version_4, simple_text, uuid_text, Uuid};

verus! {

/// The address of the user that owns everything.
pub const DEFAULT_USER_EMAIL: &'static str = "default_user@example.com";

// ---------------------------------------------------------------------------
// Times and pipeline states
// ---------------------------------------------------------------------------

/// `YYYY-MM-DD HH:MM:SS.ffffff`.
pub open spec fn micros_text(secs: int, micros: int) -> Seq<char> {
    utc_text(secs, ' ') + "."@ + pad_int(micros, 6)
}

/// The time `secs` seconds and `micros` microseconds after the epoch.
pub fn format_micros(secs: i64, micros: u32) -> (r: String)
    ensures
        r@ == micros_text(secs as int, micros as int),
{
    let base = utc_string(secs, ' ');
    let fraction = pad_text(micros as i64, 6);
    concat3(base.as_str(), ".", fraction.as_str())
}

/// The text of some reading of the clock.
pub open spec fn is_clock_text(s: Seq<char>) -> bool {
    exists|elapsed: Option<core::time::Duration>|
        s == micros_text(#[trigger] secs_in(elapsed) as int, micros_in(elapsed))
}

/// The current time.
pub fn sqlite_now_micros() -> (r: String)
    ensures
        is_clock_text(r@),
{
    let (secs, micros) = now_parts();
    format_micros(secs, micros)
}

/// The key under which a run is recorded.
pub fn run_key(run_id: Uuid) -> (r: String)
    ensures
        r@ == uuid_text(run_id.value),
{
    run_id.to_string()
}

/// One run, completed in the first pipeline and in `state` in the second.
pub open spec fn started_status(run_key: Seq<char>, state: Seq<char>) -> Json {
    Json::Object(
        seq![
            (
                "add_pipeline"@,
                Json::Object(seq![(run_key, Json::Text("DATA_ITEM_PROCESSING_COMPLETED"@))]),
            ),
            ("cognify_pipeline"@, Json::Object(seq![(run_key, Json::Text(state))])),
        ],
    )
}

/// An object with one text.
fn one_field(key: &str, text: &str) -> (r: Doc)
    ensures
        r@ == Json::Object(seq![(key@, Json::Text(text@))]),
        unambiguous(r@),
{
    broadcast use doc_view_parts;

    let mut fields: Fields = Vec::new();
    put(&mut fields, key, text_doc(text));
    let ghost all = seq![(key@, Json::Text(text@))];
    assert(field_views(fields@) =~= all);
    proof {
        unambiguous_object(all);
    }
    Doc::Object(fields)
}

/// The state of a begun run reads back from its text.
proof fn started_is_readable(run_key: Seq<char>, state: Seq<char>)
    requires
        run_key.len() > 0 ==> run_key[0] != '$',
    ensures
        readable(started_status(run_key, state)),
{
    reveal_strlit("add_pipeline");
    reveal_strlit("cognify_pipeline");
    let all = started_status(run_key, state)->Object_0;
    let first = all[0].1->Object_0;
    let second = all[1].1->Object_0;
    assert(readable_field(first[0]));
    assert(readable_field(second[0]));
    object_is_readable(first);
    object_is_readable(second);
    shallow_object(first, 126);
    shallow_object(second, 126);
    assert(all[0].0.len() != all[1].0.len());
    object_is_readable(all);
}

/// A begun run, once completed, is completed in both pipelines and nothing else
/// changes.
pub proof fn begun_run_completes(run_key: Seq<char>, state: Seq<char>)
    ensures
        completed_of(started_status(run_key, state), run_key) == Ok::<Json, StatusError>(
            started_status(run_key, "DATA_ITEM_PROCESSING_COMPLETED"@),
        ),
{
    reveal_strlit("add_pipeline");
    reveal_strlit("cognify_pipeline");
    let done = Json::Text("DATA_ITEM_PROCESSING_COMPLETED"@);
    let all = started_status(run_key, state)->Object_0;
    let end = started_status(run_key, "DATA_ITEM_PROCESSING_COMPLETED"@)->Object_0;
    let first = all[0].1->Object_0;
    let second = all[1].1->Object_0;
    assert("add_pipeline"@.len() != "cognify_pipeline"@.len());
    assert(all[0].0 == "add_pipeline"@ && all[1].0 == "cognify_pipeline"@);
    key_index_is_first(all, "add_pipeline"@);
    key_index_is_first(first, run_key);
    assert(first[0].0 == run_key);
    assert(with_field(first, run_key, done) =~= first);
    let middle = with_field(all, "add_pipeline"@, Json::Object(first));
    assert(middle =~= all);
    key_index_is_first(all, "cognify_pipeline"@);
    key_index_is_first(second, run_key);
    assert(second[0].0 == run_key);
    assert(with_field(second, run_key, done) =~= seq![(run_key, done)]);
    assert(with_field(all, "cognify_pipeline"@, Json::Object(seq![(run_key, done)])) =~= end);
}

/// The state of a data item whose first run has begun.
pub fn json_pipeline_status(run_key: &str, state: &str) -> (r: String)
    ensures
        r@ == json_text(started_status(run_key@, state@)),
        (run_key@.len() > 0 ==> run_key@[0] != '$') ==> parsed_json(r@) == Some(
            started_status(run_key@, state@),
        ),
{
    broadcast use doc_view_parts;

    let mut fields: Fields = Vec::new();
    put(&mut fields, "add_pipeline", one_field(run_key, "DATA_ITEM_PROCESSING_COMPLETED"));
    put(&mut fields, "cognify_pipeline", one_field(run_key, state));
    let ghost all = started_status(run_key@, state@)->Object_0;
    assert(field_views(fields@) =~= all);
    proof {
        reveal_strlit("add_pipeline");
        reveal_strlit("cognify_pipeline");
        assert(all[0].0.len() != all[1].0.len());
        unambiguous_object(all[0].1->Object_0);
        unambiguous_object(all[1].1->Object_0);
        unambiguous_object(all);
        if run_key@.len() > 0 ==> run_key@[0] != '$' {
            started_is_readable(run_key@, state@);
        }
    }
    doc_text(&Doc::Object(fields))
}

/// What stops a run from being recorded as completed.
#[derive(Debug, Clone, Copy, PartialEq, Eq, Structural)]
pub enum StatusError {
    /// The recorded state is not an object.
    NotAnObject,
    /// The entry of a pipeline is not an object.
    EntryNotAnObject,
}

/// The state with the run completed in one pipeline, whose entry is made where
/// it is missing.
pub open spec fn completed_in(
    state: Json,
    pipeline: Seq<char>,
    run_key: Seq<char>,
) -> Result<Json, StatusError> {
    match state {
        Json::Object(fields) => {
            let entry = match key_index(fields, pipeline) {
                Some(i) => fields[i].1,
                None => Json::Object(Seq::empty()),
            };
            match entry {
                Json::Object(runs) => Ok(
                    Json::Object(
                        with_field(
                            fields,
                            pipeline,
                            Json::Object(
                                with_field(
                                    runs,
                                    run_key,
                                    Json::Text("DATA_ITEM_PROCESSING_COMPLETED"@),
                                ),
                            ),
                        ),
                    ),
                ),
                _ => Err(StatusError::EntryNotAnObject),
            }
        },
        _ => Err(StatusError::NotAnObject),
    }
}

/// The state with the run completed in both pipelines.
pub open spec fn completed_of(state: Json, run_key: Seq<char>) -> Result<Json, StatusError> {
    match completed_in(state, "add_pipeline"@, run_key) {
        Ok(first) => completed_in(first, "cognify_pipeline"@, run_key),
        Err(e) => Err(e),
    }
}

/// Records a run as completed in one pipeline.
fn complete_in(state: Doc, pipeline: &str, run_key: &str) -> (r: Result<Doc, StatusError>)
    requires
        unambiguous(state@),
    ensures
        match r {
            Ok(d) => completed_in(state@, pipeline@, run_key@) == Ok::<Json, StatusError>(d@)
                && unambiguous(d@),
            Err(e) => completed_in(state@, pipeline@, run_key@) == Err::<Json, StatusError>(e),
        },
{
    broadcast use doc_view_parts;

    match state {
        Doc::Object(fields) => {
            let mut all = fields;
            let ghost before = field_views(all@);
            proof {
                unambiguous_object(before);
                key_index_is_first(before, pipeline@);
            }
            let mut runs: Fields = Vec::new();
            match find_field(&all, pipeline) {
                Some(i) => {
                    match &all[i].1 {
                        Doc::Object(held) => {
                            runs = crate::ingest::datapoints::copy_fields(held);
                            assert(before[i as int].1 == Json::Object(field_views(runs@)));
                        },
                        _ => {
                            assert(before[i as int].1 == all@[i as int].1@);
                            return Err(StatusError::EntryNotAnObject);
                        },
                    }
                },
                None => {
                    assert(field_views(runs@) =~= Seq::empty());
                    proof {
                        unambiguous_object(field_views(runs@));
                    }
                },
            }
            let ghost had = field_views(runs@);
            assert(unambiguous(Json::Object(had)));
            proof {
                field_set_keeps_unambiguous(
                    had,
                    run_key@,
                    Json::Text("DATA_ITEM_PROCESSING_COMPLETED"@),
                );
            }
            set_field(&mut runs, run_key, text_doc("DATA_ITEM_PROCESSING_COMPLETED"));
            let entry = Doc::Object(runs);
            proof {
                field_set_keeps_unambiguous(before, pipeline@, entry@);
            }
            set_field(&mut all, pipeline, entry);
            Ok(Doc::Object(all))
        },
        _ => Err(StatusError::NotAnObject),
    }
}

/// Records a run as completed in both pipelines.
pub fn completed_status(state: Doc, run_key: &str) -> (r: Result<Doc, StatusError>)
    requires
        unambiguous(state@),
    ensures
        match r {
            Ok(d) => completed_of(state@, run_key@) == Ok::<Json, StatusError>(d@) && unambiguous(d@),
            Err(e) => completed_of(state@, run_key@) == Err::<Json, StatusError>(e),
        },
{
    match complete_in(state, "add_pipeline", run_key) {
        Ok(first) => complete_in(first, "cognify_pipeline", run_key),
        Err(e) => Err(e),
    }
}

/// The recorded state: what its text spells, or an empty object where there is
/// no text or it spells nothing.
pub open spec fn status_of(text: Option<Seq<char>>) -> Json {
    match text {
        Some(s) if !blank(s) => match parsed_json(s) {
            Some(doc) => doc,
            None => Json::Object(Seq::empty()),
        },
        _ => Json::Object(Seq::empty()),
    }
}

/// An object with nothing in it.
fn empty_object() -> (r: Doc)
    ensures
        r@ == Json::Object(Seq::empty()),
        unambiguous(r@),
{
    broadcast use doc_view_parts;

    let fields: Fields = Vec::new();
    assert(field_views(fields@) =~= Seq::empty());
    proof {
        unambiguous_object(field_views(fields@));
    }
    Doc::Object(fields)
}

/// Reads a recorded state.
fn read_status(text: &Option<String>) -> (r: Doc)
    ensures
        r@ == status_of(opt_view(*text)),
        unambiguous(r@),
{
    match text {
        Some(s) => {
            if is_blank(s.as_str()) {
                return empty_object();
            }
            match parse_doc(s.as_str()) {
                Some(d) => d,
                None => empty_object(),
            }
        },
        None => empty_object(),
    }
}

// ---------------------------------------------------------------------------
// Rows
// ---------------------------------------------------------------------------

/// A user.
#[derive(Debug, PartialEq)]
pub struct UserRow {
    pub id: String,
    pub email: String,
}

/// A dataset.
#[derive(Debug, PartialEq)]
pub struct DatasetRow {
    pub id: String,
    pub name: Option<String>,
    pub created_at: Option<String>,
    pub updated_at: Option<String>,
    pub owner_id: Option<String>,
}

/// A data item.
#[derive(Debug, PartialEq)]
pub struct DataRow {
    pub id: String,
    pub name: Option<String>,
    pub extension: Option<String>,
    pub mime_type: Option<String>,
    pub raw_data_location: Option<String>,
    pub owner_id: Option<String>,
    pub dataset_id: Option<String>,
    pub content_hash: Option<String>,
    pub raw_content_hash: Option<String>,
    pub pipeline_status: Option<String>,
    pub token_count: Option<i64>,
    pub data_size: Option<i64>,
    pub created_at: Option<String>,
    pub updated_at: Option<String>,
}

/// What is written of one ingested text.
pub struct DataInsert<'a> {
    pub id: Uuid,
    pub name: &'a str,
    pub mime_type: &'a str,
    pub extension: &'a str,
    pub raw_data_location: &'a str,
    pub owner_id: String,
    pub dataset_id: Uuid,
    pub content_hash: &'a str,
    pub raw_content_hash: &'a str,
    pub token_count: i64,
    pub data_size: i64,
    pub run_id: Uuid,
}

/// What a [`UserRow`] holds.
pub struct UserEntry {
    pub id: Seq<char>,
    pub email: Seq<char>,
}

/// What a [`DatasetRow`] holds.
pub struct DatasetEntry {
    pub id: Seq<char>,
    pub name: Option<Seq<char>>,
    pub created_at: Option<Seq<char>>,
    pub updated_at: Option<Seq<char>>,
    pub owner_id: Option<Seq<char>>,
}

/// What a [`DataRow`] holds.
pub struct DataEntry {
    pub id: Seq<char>,
    pub name: Option<Seq<char>>,
    pub extension: Option<Seq<char>>,
    pub mime_type: Option<Seq<char>>,
    pub raw_data_location: Option<Seq<char>>,
    pub owner_id: Option<Seq<char>>,
    pub dataset_id: Option<Seq<char>>,
    pub content_hash: Option<Seq<char>>,
    pub raw_content_hash: Option<Seq<char>>,
    pub pipeline_status: Option<Seq<char>>,
    pub token_count: Option<i64>,
    pub data_size: Option<i64>,
    pub created_at: Option<Seq<char>>,
    pub updated_at: Option<Seq<char>>,
}

impl UserRow {
    pub open spec fn view(&self) -> UserEntry {
        UserEntry { id: self.id@, email: self.email@ }
    }
}

impl DatasetRow {
    pub open spec fn view(&self) -> DatasetEntry {
        DatasetEntry {
            id: self.id@,
            name: opt_view(self.name),
            created_at: opt_view(self.created_at),
            updated_at: opt_view(self.updated_at),
            owner_id: opt_view(self.owner_id),
        }
    }

    /// A copy of the row.
    pub fn copy(&self) -> (r: DatasetRow)
        ensures
            r@ == self@,
    {
        DatasetRow {
            id: owned(self.id.as_str()),
            name: copy_opt(&self.name),
            created_at: copy_opt(&self.created_at),
            updated_at: copy_opt(&self.updated_at),
            owner_id: copy_opt(&self.owner_id),
        }
    }
}

impl DataRow {
    pub open spec fn view(&self) -> DataEntry {
        DataEntry {
            id: self.id@,
            name: opt_view(self.name),
            extension: opt_view(self.extension),
            mime_type: opt_view(self.mime_type),
            raw_data_location: opt_view(self.raw_data_location),
            owner_id: opt_view(self.owner_id),
            dataset_id: opt_view(self.dataset_id),
            content_hash: opt_view(self.content_hash),
            raw_content_hash: opt_view(self.raw_content_hash),
            pipeline_status: opt_view(self.pipeline_status),
            token_count: self.token_count,
            data_size: self.data_size,
            created_at: opt_view(self.created_at),
            updated_at: opt_view(self.updated_at),
        }
    }

    /// A copy of the row.
    pub fn copy(&self) -> (r: DataRow)
        ensures
            r@ == self@,
    {
        DataRow {
            id: owned(self.id.as_str()),
            name: copy_opt(&self.name),
            extension: copy_opt(&self.extension),
            mime_type: copy_opt(&self.mime_type),
            raw_data_location: copy_opt(&self.raw_data_location),
            owner_id: copy_opt(&self.owner_id),
            dataset_id: copy_opt(&self.dataset_id),
            content_hash: copy_opt(&self.content_hash),
            raw_content_hash: copy_opt(&self.raw_content_hash),
            pipeline_status: copy_opt(&self.pipeline_status),
            token_count: self.token_count,
            data_size: self.data_size,
            created_at: copy_opt(&self.created_at),
            updated_at: copy_opt(&self.updated_at),
        }
    }
}

/// The row that an ingested text gives at the time `now`.
pub open spec fn data_entry_of(d: DataInsert, now: Seq<char>) -> DataEntry {
    DataEntry {
        id: simple_text(d.id.value),
        name: Some(d.name@),
        extension: Some(d.extension@),
        mime_type: Some(d.mime_type@),
        raw_data_location: Some(d.raw_data_location@),
        owner_id: Some(d.owner_id@),
        dataset_id: Some(simple_text(d.dataset_id.value)),
        content_hash: Some(d.content_hash@),
        raw_content_hash: Some(d.content_hash@),
        pipeline_status: Some(
            json_text(
                started_status(uuid_text(d.run_id.value), "DATA_ITEM_PROCESSING_STARTED"@),
            ),
        ),
        token_count: Some(d.token_count),
        data_size: Some(d.data_size),
        created_at: Some(now),
        updated_at: Some(now),
    }
}

pub open spec fn user_views(rows: Seq<UserRow>) -> Seq<UserEntry> {
    rows.map_values(|r: UserRow| r@)
}

pub open spec fn dataset_views(rows: Seq<DatasetRow>) -> Seq<DatasetEntry> {
    rows.map_values(|r: DatasetRow| r@)
}

pub open spec fn data_views(rows: Seq<DataRow>) -> Seq<DataEntry> {
    rows.map_values(|r: DataRow| r@)
}

// ---------------------------------------------------------------------------
// The store
// ---------------------------------------------------------------------------

/// What a relational store holds.
pub struct Relations {
    pub users: Seq<UserEntry>,
    pub datasets: Seq<DatasetEntry>,
    pub data: Seq<DataEntry>,
}

/// Dataset identifiers are distinct.
pub open spec fn datasets_ok(rows: Seq<DatasetEntry>) -> bool {
    forall|i: int, j: int|
        #![trigger rows[i], rows[j]]
        0 <= i < j < rows.len() ==> rows[i].id != rows[j].id
}

/// Data identifiers are distinct.
pub open spec fn data_ok(rows: Seq<DataEntry>) -> bool {
    forall|i: int, j: int|
        #![trigger rows[i], rows[j]]
        0 <= i < j < rows.len() ==> rows[i].id != rows[j].id
}

/// Relational metadata.
pub struct RelationalStore {
    users: Vec<UserRow>,
    datasets: Vec<DatasetRow>,
    data: Vec<DataRow>,
}

impl RelationalStore {
    pub closed spec fn view(&self) -> Relations {
        Relations {
            users: user_views(self.users@),
            datasets: dataset_views(self.datasets@),
            data: data_views(self.data@),
        }
    }

    /// Identifiers are distinct.
    pub open spec fn valid(&self) -> bool {
        datasets_ok(self@.datasets) && data_ok(self@.data)
    }
}

/// Why the store could not do what it was asked.
#[derive(Debug)]
pub enum RelationalError {
    /// There is no row of the default user.
    DefaultUserMissing,
    /// Another user has the identifier of the default user.
    DefaultUserTaken,
    /// An identifier occurs twice.
    BadRows,
    /// No dataset has that name or identifier.
    DatasetNotFound(String),
    /// A stored identifier is none.
    BadId(String),
    /// A row with that identifier exists.
    Duplicate,
    /// A dataset has no name.
    NullName,
    /// The recorded state of a data item cannot be completed.
    Status(StatusError),
}

/// The identifier of the default user.
pub open spec fn default_user_value() -> u128 {
    oid_of("reflect-mem/default_user"@)
}

/// The identifier of the default user.
pub fn default_user_id_value() -> (r: Uuid)
    ensures
        r.value == default_user_value(),
{
    oid_uuid5("reflect-mem/default_user")
}

/// The first user with an address.
pub open spec fn user_index(users: Seq<UserEntry>, email: Seq<char>) -> Option<int>
    decreases users.len(),
{
    if users.len() == 0 {
        None
    } else {
        match user_index(users.drop_last(), email) {
            Some(i) => Some(i),
            None => if users.last().email == email {
                Some(users.len() - 1)
            } else {
                None
            },
        }
    }
}

/// Some user has that identifier.
pub open spec fn has_user_id(users: Seq<UserEntry>, id: Seq<char>) -> bool {
    exists|i: int| 0 <= i < users.len() && (#[trigger] users[i]).id == id
}

/// The users with the default user among them.
pub open spec fn with_default_user(users: Seq<UserEntry>) -> Seq<UserEntry> {
    if user_index(users, DEFAULT_USER_EMAIL@) is Some {
        users
    } else {
        users.push(
            UserEntry { id: simple_text(default_user_value()), email: DEFAULT_USER_EMAIL@ },
        )
    }
}

proof fn user_found_stays(users: Seq<UserEntry>, email: Seq<char>, i: int)
    requires
        0 <= i <= users.len(),
        user_index(users.take(i), email) is Some,
    ensures
        user_index(users, email) == user_index(users.take(i), email),
    decreases users.len() - i,
{
    if i == users.len() {
        assert(users.take(i) =~= users);
    } else {
        assert(users.take(i + 1).drop_last() =~= users.take(i));
        user_found_stays(users, email, i + 1);
    }
}

/// The first user with an address.
fn find_user(users: &Vec<UserRow>, email: &str) -> (r: Option<usize>)
    ensures
        match r {
            Some(i) => i < users@.len() && user_index(user_views(users@), email@) == Some(i as int),
            None => user_index(user_views(users@), email@) is None,
        },
{
    let ghost all = user_views(users@);
    let mut i: usize = 0;
    while i < users.len()
        invariant
            i <= users@.len(),
            all == user_views(users@),
            user_index(all.take(i as int), email@) is None,
        decreases users@.len() - i,
    {
        assert(all.take(i + 1).drop_last() =~= all.take(i as int));
        assert(all.take(i + 1).last() == users@[i as int]@);
        if same(users[i].email.as_str(), email) {
            proof {
                user_found_stays(all, email@, i + 1);
            }
            return Some(i);
        }
        i += 1;
    }
    assert(all.take(all.len() as int) =~= all);
    None
}

/// Whether no dataset identifier occurs twice.
fn check_datasets(rows: &Vec<DatasetRow>) -> (r: bool)
    ensures
        r == datasets_ok(dataset_views(rows@)),
{
    let ghost all = dataset_views(rows@);
    let mut i: usize = 0;
    while i < rows.len()
        invariant
            i <= rows@.len(),
            all == dataset_views(rows@),
            forall|a: int, b: int|
                #![trigger all[a], all[b]]
                0 <= a < b < i ==> all[a].id != all[b].id,
        decreases rows@.len() - i,
    {
        assert(all[i as int].id == rows@[i as int].id@);
        let mut k: usize = 0;
        while k < i
            invariant
                k <= i,
                i < rows@.len(),
                all == dataset_views(rows@),
                forall|a: int| 0 <= a < k ==> (#[trigger] all[a]).id != all[i as int].id,
            decreases i - k,
        {
            assert(all[k as int].id == rows@[k as int].id@);
            assert(all[i as int].id == rows@[i as int].id@);
            if same(rows[k].id.as_str(), rows[i].id.as_str()) {
                return false;
            }
            k += 1;
        }
        i += 1;
    }
    true
}

/// Whether no data identifier occurs twice.
fn check_data(rows: &Vec<DataRow>) -> (r: bool)
    ensures
        r == data_ok(data_views(rows@)),
{
    let ghost all = data_views(rows@);
    let mut i: usize = 0;
    while i < rows.len()
        invariant
            i <= rows@.len(),
            all == data_views(rows@),
            forall|a: int, b: int|
                #![trigger all[a], all[b]]
                0 <= a < b < i ==> all[a].id != all[b].id,
        decreases rows@.len() - i,
    {
        assert(all[i as int].id == rows@[i as int].id@);
        let mut k: usize = 0;
        while k < i
            invariant
                k <= i,
                i < rows@.len(),
                all == data_views(rows@),
                forall|a: int| 0 <= a < k ==> (#[trigger] all[a]).id != all[i as int].id,
            decreases i - k,
        {
            assert(all[k as int].id == rows@[k as int].id@);
            assert(all[i as int].id == rows@[i as int].id@);
            if same(rows[k].id.as_str(), rows[i].id.as_str()) {
                return false;
            }
            k += 1;
        }
        i += 1;
    }
    true
}

/// Whether some user has that identifier.
fn contains_user_id(users: &Vec<UserRow>, id: &str) -> (r: bool)
    ensures
        r == has_user_id(user_views(users@), id@),
{
    let ghost all = user_views(users@);
    let mut i: usize = 0;
    while i < users.len()
        invariant
            i <= users@.len(),
            all == user_views(users@),
            forall|j: int| 0 <= j < i ==> (#[trigger] all[j]).id != id@,
        decreases users@.len() - i,
    {
        if same(users[i].id.as_str(), id) {
            assert(all[i as int].id == id@);
            return true;
        }
        i += 1;
    }
    false
}

impl RelationalStore {
    /// A store over the given rows, with the default user among them.
    pub fn open(
        users: Vec<UserRow>,
        datasets: Vec<DatasetRow>,
        data: Vec<DataRow>,
    ) -> (r: Result<RelationalStore, RelationalError>)
        ensures
            ({
                let rows_ok = datasets_ok(dataset_views(datasets@)) && data_ok(data_views(data@));
                let taken = user_index(user_views(users@), DEFAULT_USER_EMAIL@) is None
                    && has_user_id(user_views(users@), simple_text(default_user_value()));
                match r {
                    Ok(s) => rows_ok && !taken && s.valid() && s@ == (Relations {
                        users: with_default_user(user_views(users@)),
                        datasets: dataset_views(datasets@),
                        data: data_views(data@),
                    }),
                    Err(e) => (e is BadRows && !rows_ok) || (e is DefaultUserTaken && rows_ok
                        && taken),
                }
            }),
    {
        if !check_datasets(&datasets) || !check_data(&data) {
            return Err(RelationalError::BadRows);
        }
        let mut all = users;
        let ghost before = user_views(all@);
        match find_user(&all, DEFAULT_USER_EMAIL) {
            Some(_) => {},
            None => {
                let id = dashless(default_user_id_value());
                if contains_user_id(&all, id.as_str()) {
                    return Err(RelationalError::DefaultUserTaken);
                }
                let row = UserRow { id, email: owned(DEFAULT_USER_EMAIL) };
                let ghost entry = row@;
                all.push(row);
                assert(user_views(all@) =~= before.push(entry));
            },
        }
        Ok(RelationalStore { users: all, datasets, data })
    }

    /// The identifier of the default user.
    pub fn default_user_id(&self) -> (r: Result<String, RelationalError>)
        ensures
            match r {
                Ok(id) => user_index(self@.users, DEFAULT_USER_EMAIL@) matches Some(i) && id@
                    == self@.users[i].id,
                Err(e) => e is DefaultUserMissing && user_index(self@.users, DEFAULT_USER_EMAIL@)
                    is None,
            },
    {
        match find_user(&self.users, DEFAULT_USER_EMAIL) {
            Some(i) => Ok(owned(self.users[i].id.as_str())),
            None => Err(RelationalError::DefaultUserMissing),
        }
    }
}

/// An opened store has the default user.
pub proof fn default_user_is_there(users: Seq<UserEntry>)
    ensures
        user_index(with_default_user(users), DEFAULT_USER_EMAIL@) is Some,
{
    if user_index(users, DEFAULT_USER_EMAIL@) is None {
        let after = with_default_user(users);
        assert(after.drop_last() =~= users);
    }
}

// ---------------------------------------------------------------------------
// Datasets
// ---------------------------------------------------------------------------

/// The first dataset with a name.
pub open spec fn dataset_index(rows: Seq<DatasetEntry>, name: Seq<char>) -> Option<int>
    decreases rows.len(),
{
    if rows.len() == 0 {
        None
    } else {
        match dataset_index(rows.drop_last(), name) {
            Some(i) => Some(i),
            None => if rows.last().name == Some(name) {
                Some(rows.len() - 1)
            } else {
                None
            },
        }
    }
}

/// What a dataset is told by: its name or its identifier.
#[derive(Debug, PartialEq)]
pub enum DatasetKey {
    Name(String),
    Id(Uuid),
}

/// A dataset is one that `key` tells.
pub open spec fn told_by(row: DatasetEntry, key: DatasetKey) -> bool {
    match key {
        DatasetKey::Name(name) => row.name == Some(name@),
        DatasetKey::Id(id) => stored_uuid(row.id) == Some(id.value as int),
    }
}

/// The first dataset that `key` tells.
pub open spec fn dataset_at(rows: Seq<DatasetEntry>, key: DatasetKey) -> Option<int>
    decreases rows.len(),
{
    if rows.len() == 0 {
        None
    } else {
        match dataset_at(rows.drop_last(), key) {
            Some(i) => Some(i),
            None => if told_by(rows.last(), key) {
                Some(rows.len() - 1)
            } else {
                None
            },
        }
    }
}

/// Accepts the datasets that `key` does not tell.
pub open spec fn dataset_other_than(key: DatasetKey) -> spec_fn(DatasetEntry) -> bool {
    |d: DatasetEntry| !told_by(d, key)
}

/// The spelling of a key.
pub open spec fn key_text(key: DatasetKey) -> Seq<char> {
    match key {
        DatasetKey::Name(name) => name@,
        DatasetKey::Id(id) => uuid_text(id.value),
    }
}

/// Some dataset has that stored identifier.
pub open spec fn has_dataset_id(rows: Seq<DatasetEntry>, id: Seq<char>) -> bool {
    exists|i: int| 0 <= i < rows.len() && (#[trigger] rows[i]).id == id
}

/// The row of a new dataset.
pub open spec fn new_dataset(
    id: u128,
    name: Seq<char>,
    now: Seq<char>,
    owner: Seq<char>,
) -> DatasetEntry {
    DatasetEntry {
        id: simple_text(id),
        name: Some(name),
        created_at: Some(now),
        updated_at: Some(now),
        owner_id: Some(owner),
    }
}

proof fn dataset_found_stays(rows: Seq<DatasetEntry>, name: Seq<char>, i: int)
    requires
        0 <= i <= rows.len(),
        dataset_index(rows.take(i), name) is Some,
    ensures
        dataset_index(rows, name) == dataset_index(rows.take(i), name),
    decreases rows.len() - i,
{
    if i == rows.len() {
        assert(rows.take(i) =~= rows);
    } else {
        assert(rows.take(i + 1).drop_last() =~= rows.take(i));
        dataset_found_stays(rows, name, i + 1);
    }
}

proof fn told_stays(rows: Seq<DatasetEntry>, key: DatasetKey, i: int)
    requires
        0 <= i <= rows.len(),
        dataset_at(rows.take(i), key) is Some,
    ensures
        dataset_at(rows, key) == dataset_at(rows.take(i), key),
    decreases rows.len() - i,
{
    if i == rows.len() {
        assert(rows.take(i) =~= rows);
    } else {
        assert(rows.take(i + 1).drop_last() =~= rows.take(i));
        told_stays(rows, key, i + 1);
    }
}

/// `dataset_at` finds the first dataset that the key tells, if there is one.
pub proof fn dataset_at_is_first(rows: Seq<DatasetEntry>, key: DatasetKey)
    ensures
        match dataset_at(rows, key) {
            Some(i) => 0 <= i < rows.len() && told_by(rows[i], key) && forall|j: int|
                0 <= j < i ==> !told_by(#[trigger] rows[j], key),
            None => forall|j: int| 0 <= j < rows.len() ==> !told_by(#[trigger] rows[j], key),
        },
    decreases rows.len(),
{
    if rows.len() > 0 {
        dataset_at_is_first(rows.drop_last(), key);
        assert forall|j: int| 0 <= j < rows.len() - 1 implies rows[j] == rows.drop_last()[j] by {}
    }
}

/// `dataset_index` finds the first dataset with the name, if there is one.
pub proof fn dataset_index_is_first(rows: Seq<DatasetEntry>, name: Seq<char>)
    ensures
        match dataset_index(rows, name) {
            Some(i) => 0 <= i < rows.len() && rows[i].name == Some(name) && forall|j: int|
                0 <= j < i ==> (#[trigger] rows[j]).name != Some(name),
            None => forall|j: int| 0 <= j < rows.len() ==> (#[trigger] rows[j]).name != Some(name),
        },
    decreases rows.len(),
{
    if rows.len() > 0 {
        dataset_index_is_first(rows.drop_last(), name);
        assert forall|j: int| 0 <= j < rows.len() - 1 implies rows[j] == rows.drop_last()[j] by {}
    }
}

/// Whether a dataset has that name.
fn is_named(row: &DatasetRow, name: &str) -> (r: bool)
    ensures
        r == (row@.name == Some(name@)),
{
    match &row.name {
        Some(n) => same(n.as_str(), name),
        None => false,
    }
}

impl RelationalStore {
    /// The position of the first dataset with a name.
    fn find_dataset(&self, name: &str) -> (r: Option<usize>)
        ensures
            match r {
                Some(i) => i < self.datasets@.len() && dataset_index(self@.datasets, name@) == Some(
                    i as int,
                ),
                None => dataset_index(self@.datasets, name@) is None,
            },
    {
        let ghost all = self@.datasets;
        let mut i: usize = 0;
        while i < self.datasets.len()
            invariant
                i <= self.datasets@.len(),
                all == dataset_views(self.datasets@),
                dataset_index(all.take(i as int), name@) is None,
            decreases self.datasets@.len() - i,
        {
            assert(all.take(i + 1).drop_last() =~= all.take(i as int));
            assert(all.take(i + 1).last() == self.datasets@[i as int]@);
            if is_named(&self.datasets[i], name) {
                proof {
                    dataset_found_stays(all, name@, i + 1);
                }
                return Some(i);
            }
            i += 1;
        }
        assert(all.take(all.len() as int) =~= all);
        None
    }

    /// Whether the key tells the dataset.
    fn is_told(row: &DatasetRow, key: &DatasetKey) -> (r: bool)
        ensures
            r == told_by(row@, *key),
    {
        match key {
            DatasetKey::Name(name) => is_named(row, name.as_str()),
            DatasetKey::Id(id) => match parse_dashless(row.id.as_str()) {
                Some(u) => u.value == id.value,
                None => false,
            },
        }
    }

    /// The position of the first dataset that the key tells.
    fn find_dataset_at(&self, key: &DatasetKey) -> (r: Option<usize>)
        ensures
            match r {
                Some(i) => i < self.datasets@.len() && dataset_at(self@.datasets, *key) == Some(
                    i as int,
                ),
                None => dataset_at(self@.datasets, *key) is None,
            },
    {
        let ghost all = self@.datasets;
        let mut i: usize = 0;
        while i < self.datasets.len()
            invariant
                i <= self.datasets@.len(),
                all == dataset_views(self.datasets@),
                dataset_at(all.take(i as int), *key) is None,
            decreases self.datasets@.len() - i,
        {
            assert(all.take(i + 1).drop_last() =~= all.take(i as int));
            assert(all.take(i + 1).last() == self.datasets@[i as int]@);
            if Self::is_told(&self.datasets[i], key) {
                proof {
                    told_stays(all, *key, i + 1);
                }
                return Some(i);
            }
            i += 1;
        }
        assert(all.take(all.len() as int) =~= all);
        None
    }

    /// Whether some dataset has that stored identifier.
    fn contains_dataset_id(&self, id: &str) -> (r: bool)
        ensures
            r == has_dataset_id(self@.datasets, id@),
    {
        let ghost all = self@.datasets;
        let mut i: usize = 0;
        while i < self.datasets.len()
            invariant
                i <= self.datasets@.len(),
                all == dataset_views(self.datasets@),
                forall|j: int| 0 <= j < i ==> (#[trigger] all[j]).id != id@,
            decreases self.datasets@.len() - i,
        {
            if same(self.datasets[i].id.as_str(), id) {
                assert(all[i as int].id == id@);
                return true;
            }
            i += 1;
        }
        false
    }

    /// The identifier of the dataset with a name; one that does not exist is
    /// made, with the identifier `fresh` and the time `now`.
    pub fn ensure_dataset_at(&mut self, name: &str, fresh: Uuid, now: &str) -> (r: Result<
        Uuid,
        RelationalError,
    >)
        requires
            old(self).valid(),
        ensures
            final(self).valid(),
            ({
                let before = old(self)@;
                let owner = user_index(before.users, DEFAULT_USER_EMAIL@);
                match dataset_index(before.datasets, name@) {
                    Some(i) => final(self)@ == before && match r {
                        Ok(u) => stored_uuid(before.datasets[i].id) == Some(u.value as int),
                        Err(RelationalError::BadId(hex)) => hex@ == before.datasets[i].id
                            && stored_uuid(before.datasets[i].id) is None,
                        Err(_) => false,
                    },
                    None => match r {
                        Ok(u) => u == fresh && owner is Some && !has_dataset_id(
                            before.datasets,
                            simple_text(fresh.value),
                        ) && final(self)@ == (Relations {
                            datasets: before.datasets.push(
                                new_dataset(
                                    fresh.value,
                                    name@,
                                    now@,
                                    before.users[owner->0].id,
                                ),
                            ),
                            ..before
                        }),
                        Err(RelationalError::DefaultUserMissing) => final(self)@ == before && owner
                            is None,
                        Err(RelationalError::Duplicate) => final(self)@ == before && owner is Some
                            && has_dataset_id(before.datasets, simple_text(fresh.value)),
                        Err(_) => false,
                    },
                }
            }),
    {
        match self.find_dataset(name) {
            Some(i) => {
                let hex = owned(self.datasets[i].id.as_str());
                assert(self@.datasets[i as int].id == hex@);
                return match parse_dashless(hex.as_str()) {
                    Some(u) => Ok(u),
                    None => Err(RelationalError::BadId(hex)),
                };
            },
            None => {},
        }
        let owner = match self.default_user_id() {
            Ok(id) => id,
            Err(_) => {
                return Err(RelationalError::DefaultUserMissing);
            },
        };
        let id = dashless(fresh);
        if self.contains_dataset_id(id.as_str()) {
            return Err(RelationalError::Duplicate);
        }
        let ghost before = self@.datasets;
        let row = DatasetRow {
            id,
            name: Some(owned(name)),
            created_at: Some(owned(now)),
            updated_at: Some(owned(now)),
            owner_id: Some(owner),
        };
        let ghost entry = row@;
        self.datasets.push(row);
        assert(self@.datasets =~= before.push(entry));
        proof {
            let after = self@.datasets;
            assert forall|i: int, j: int|
                #![trigger after[i], after[j]]
                0 <= i < j < after.len() implies after[i].id != after[j].id by {
                assert(after[i] == before[i]);
                if j < before.len() {
                    assert(after[j] == before[j]);
                }
            }
        }
        Ok(fresh)
    }

    /// The identifier of the dataset with a name, which is made where it does
    /// not exist.
    pub fn ensure_dataset(&mut self, name: &str) -> (r: Result<Uuid, RelationalError>)
        requires
            old(self).valid(),
        ensures
            final(self).valid(),
            ({
                let before = old(self)@;
                let owner = user_index(before.users, DEFAULT_USER_EMAIL@);
                match dataset_index(before.datasets, name@) {
                    Some(i) => final(self)@ == before && match r {
                        Ok(u) => stored_uuid(before.datasets[i].id) == Some(u.value as int),
                        Err(RelationalError::BadId(hex)) => hex@ == before.datasets[i].id
                            && stored_uuid(before.datasets[i].id) is None,
                        Err(_) => false,
                    },
                    None => match r {
                        Ok(u) => owner is Some && is_version_4(u.value) && !has_dataset_id(
                            before.datasets,
                            simple_text(u.value),
                        ) && exists|now: Seq<char>|
                            is_clock_text(now) && final(self)@ == (Relations {
                                datasets: before.datasets.push(
                                    #[trigger] new_dataset(
                                        u.value,
                                        name@,
                                        now,
                                        before.users[owner->0].id,
                                    ),
                                ),
                                ..before
                            }),
                        Err(RelationalError::DefaultUserMissing) => final(self)@ == before && owner
                            is None,
                        Err(RelationalError::Duplicate) => final(self)@ == before && owner is Some
                            && exists|fresh: u128|
                            is_version_4(fresh) && has_dataset_id(
                                before.datasets,
                                #[trigger] simple_text(fresh),
                            ),
                        Err(_) => false,
                    },
                }
            }),
    {
        let now = sqlite_now_micros();
        let fresh = Uuid::new_v4();
        self.ensure_dataset_at(name, fresh, now.as_str())
    }

    /// The identifier of the dataset called `name`.
    pub fn dataset_id(&self, name: &str) -> (r: Result<Uuid, RelationalError>)
        ensures
            match dataset_index(self@.datasets, name@) {
                Some(i) => match r {
                    Ok(u) => stored_uuid(self@.datasets[i].id) == Some(u.value as int),
                    Err(RelationalError::BadId(hex)) => hex@ == self@.datasets[i].id && stored_uuid(
                        self@.datasets[i].id,
                    ) is None,
                    Err(_) => false,
                },
                None => r matches Err(RelationalError::DatasetNotFound(n)) && n@ == name@,
            },
    {
        match self.find_dataset(name) {
            Some(i) => self.read_dataset_id(i),
            None => Err(RelationalError::DatasetNotFound(owned(name))),
        }
    }

    /// The identifier of the dataset at a position.
    fn read_dataset_id(&self, i: usize) -> (r: Result<Uuid, RelationalError>)
        requires
            i < self@.datasets.len(),
        ensures
            match r {
                Ok(u) => stored_uuid(self@.datasets[i as int].id) == Some(u.value as int),
                Err(RelationalError::BadId(hex)) => hex@ == self@.datasets[i as int].id
                    && stored_uuid(self@.datasets[i as int].id) is None,
                Err(_) => false,
            },
    {
        let hex = owned(self.datasets[i].id.as_str());
        assert(self@.datasets[i as int].id == hex@);
        match parse_dashless(hex.as_str()) {
            Some(u) => Ok(u),
            None => Err(RelationalError::BadId(hex)),
        }
    }

    /// The identifier of the dataset that a key tells.
    pub fn dataset_id_at(&self, key: &DatasetKey) -> (r: Result<Uuid, RelationalError>)
        ensures
            match dataset_at(self@.datasets, *key) {
                Some(i) => match r {
                    Ok(u) => stored_uuid(self@.datasets[i].id) == Some(u.value as int),
                    Err(RelationalError::BadId(hex)) => hex@ == self@.datasets[i].id && stored_uuid(
                        self@.datasets[i].id,
                    ) is None,
                    Err(_) => false,
                },
                None => r matches Err(RelationalError::DatasetNotFound(n)) && n@ == key_text(*key),
            },
    {
        match self.find_dataset_at(key) {
            Some(i) => self.read_dataset_id(i),
            None => Err(
                RelationalError::DatasetNotFound(
                    match key {
                        DatasetKey::Name(name) => owned(name.as_str()),
                        DatasetKey::Id(id) => id.to_string(),
                    },
                ),
            ),
        }
    }
}

/// The identifiers of datasets.
pub open spec fn dataset_ids(rows: Seq<DatasetEntry>) -> Seq<Seq<char>> {
    rows.map_values(|d: DatasetEntry| d.id)
}

/// The identifiers of data items.
pub open spec fn data_ids(rows: Seq<DataEntry>) -> Seq<Seq<char>> {
    rows.map_values(|d: DataEntry| d.id)
}

/// `hex` is the first of the stored identifiers that cannot be read.
pub open spec fn is_first_unread(ids: Seq<Seq<char>>, hex: Seq<char>) -> bool {
    exists|i: int|
        0 <= i < ids.len() && #[trigger] ids[i] == hex && stored_uuid(hex) is None && forall|j: int|
            0 <= j < i ==> stored_uuid(#[trigger] ids[j]) is Some
}

/// Some dataset has no name.
pub open spec fn some_nameless(rows: Seq<DatasetEntry>) -> bool {
    exists|i: int| 0 <= i < rows.len() && (#[trigger] rows[i]).name is None
}

/// Why datasets cannot be listed: one has no name or, where all have one, the
/// first identifier that cannot be read.
pub open spec fn is_listing_error(rows: Seq<DatasetEntry>, e: RelationalError) -> bool {
    match e {
        RelationalError::NullName => some_nameless(rows),
        RelationalError::BadId(hex) => !some_nameless(rows) && is_first_unread(
            dataset_ids(rows),
            hex@,
        ),
        _ => false,
    }
}

proof fn fewer_datasets_ok(rows: Seq<DatasetEntry>, pred: spec_fn(DatasetEntry) -> bool)
    requires
        datasets_ok(rows),
    ensures
        datasets_ok(rows.filter(pred)),
{
    let kept = rows.filter(pred);
    assert forall|i: int, j: int|
        #![trigger kept[i], kept[j]]
        0 <= i < j < kept.len() implies kept[i].id != kept[j].id by {
        filter_keeps_order(rows, pred, i, j);
    }
}

proof fn fewer_data_ok(rows: Seq<DataEntry>, pred: spec_fn(DataEntry) -> bool)
    requires
        data_ok(rows),
    ensures
        data_ok(rows.filter(pred)),
{
    let kept = rows.filter(pred);
    assert forall|i: int, j: int|
        #![trigger kept[i], kept[j]]
        0 <= i < j < kept.len() implies kept[i].id != kept[j].id by {
        filter_keeps_order(rows, pred, i, j);
    }
}

impl RelationalStore {
    /// Deletes the datasets called `name`.
    pub fn delete_dataset(&mut self, name: &str)
        requires
            old(self).valid(),
        ensures
            final(self).valid(),
            final(self)@ == (Relations {
                datasets: old(self)@.datasets.filter(|d: DatasetEntry| d.name != Some(name@)),
                ..old(self)@
            }),
    {
        let key = DatasetKey::Name(owned(name));
        proof {
            filters_agree(
                self@.datasets,
                dataset_other_than(key),
                |d: DatasetEntry| d.name != Some(name@),
            );
        }
        self.delete_dataset_at(&key);
    }

    /// Deletes the datasets that a key tells.
    pub fn delete_dataset_at(&mut self, key: &DatasetKey)
        requires
            old(self).valid(),
        ensures
            final(self).valid(),
            final(self)@ == (Relations {
                datasets: old(self)@.datasets.filter(dataset_other_than(*key)),
                ..old(self)@
            }),
    {
        let ghost pred = dataset_other_than(*key);
        let mut held: Vec<DatasetRow> = Vec::new();
        std::mem::swap(&mut held, &mut self.datasets);
        let ghost rows = held@;
        let ghost all = dataset_views(rows);
        let mut out: Vec<DatasetRow> = Vec::new();
        proof {
            filter_ends(all, pred);
            assert(dataset_views(out@) =~= Seq::<DatasetEntry>::empty());
        }
        for row in it: held
            invariant
                it.seq() == rows,
                all == dataset_views(rows),
                datasets_ok(all),
                pred == dataset_other_than(*key),
                dataset_views(out@) == all.take(it.index() as int).filter(pred),
        {
            let ghost i = it.index() as int;
            let ghost before = dataset_views(out@);
            proof {
                filter_step(all, i, pred);
                assert(all[i] == row@);
            }
            if !Self::is_told(&row, key) {
                out.push(row);
                assert(dataset_views(out@) =~= before.push(row@));
            }
        }
        proof {
            filter_ends(all, pred);
            fewer_datasets_ok(all, pred);
        }
        self.datasets = out;
    }

    /// Every dataset's identifier and name; an error where a name is missing or,
    /// failing that, an identifier cannot be read.
    pub fn all_datasets(&self) -> (r: Result<Vec<(Uuid, String)>, RelationalError>)
        ensures
            match r {
                Ok(list) => list@.len() == self@.datasets.len() && forall|i: int|
                    0 <= i < list@.len() ==> stored_uuid(self@.datasets[i].id) == Some(
                        (#[trigger] list@[i]).0.value as int,
                    ) && self@.datasets[i].name == Some(list@[i].1@),
                Err(e) => is_listing_error(self@.datasets, e),
            },
    {
        let ghost all = self@.datasets;
        let mut i: usize = 0;
        while i < self.datasets.len()
            invariant
                i <= self.datasets@.len(),
                all == dataset_views(self.datasets@),
                all == self@.datasets,
                forall|j: int| 0 <= j < i ==> (#[trigger] all[j]).name is Some,
            decreases self.datasets@.len() - i,
        {
            assert(all[i as int] == self.datasets@[i as int]@);
            if self.datasets[i].name.is_none() {
                return Err(RelationalError::NullName);
            }
            i += 1;
        }
        let mut out: Vec<(Uuid, String)> = Vec::new();
        let mut k: usize = 0;
        while k < self.datasets.len()
            invariant
                k <= self.datasets@.len(),
                all == dataset_views(self.datasets@),
                all == self@.datasets,
                forall|j: int| 0 <= j < all.len() ==> (#[trigger] all[j]).name is Some,
                out@.len() == k,
                forall|j: int|
                    0 <= j < k ==> stored_uuid(all[j].id) == Some(
                        (#[trigger] out@[j]).0.value as int,
                    ) && all[j].name == Some(out@[j].1@),
            decreases self.datasets@.len() - k,
        {
            assert(all[k as int] == self.datasets@[k as int]@);
            assert(all[k as int].name is Some);
            let name = or_empty(&self.datasets[k].name);
            match parse_dashless(self.datasets[k].id.as_str()) {
                Some(u) => {
                    out.push((u, name));
                },
                None => {
                    let hex = owned(self.datasets[k].id.as_str());
                    proof {
                        let ids = dataset_ids(all);
                        assert forall|j: int| 0 <= j < k implies stored_uuid(
                            #[trigger] ids[j],
                        ) is Some by {
                            assert(stored_uuid(all[j].id) == Some(out@[j].0.value as int));
                        }
                        assert(ids[k as int] == hex@);
                        assert(is_first_unread(ids, hex@));
                    }
                    return Err(RelationalError::BadId(hex));
                },
            }
            k += 1;
        }
        Ok(out)
    }

    /// Deletes every dataset; gives how many there were.
    pub fn delete_all_datasets(&mut self) -> (r: usize)
        ensures
            final(self)@ == (Relations { datasets: Seq::empty(), ..old(self)@ }),
            r == old(self)@.datasets.len(),
            old(self).valid() ==> final(self).valid(),
    {
        let n: usize = self.datasets.len();
        self.datasets = Vec::new();
        assert(self@.datasets =~= Seq::empty());
        n
    }

    /// A copy of every dataset row.
    pub fn dataset_rows(&self) -> (r: Vec<DatasetRow>)
        ensures
            dataset_views(r@) == self@.datasets,
    {
        let mut out: Vec<DatasetRow> = Vec::new();
        let mut i: usize = 0;
        while i < self.datasets.len()
            invariant
                i <= self.datasets@.len(),
                out@.len() == i,
                forall|j: int| 0 <= j < i ==> (#[trigger] out@[j])@ == self.datasets@[j]@,
            decreases self.datasets@.len() - i,
        {
            out.push(self.datasets[i].copy());
            i += 1;
        }
        assert(dataset_views(out@) =~= self@.datasets);
        out
    }

    /// A copy of every data row.
    pub fn data_rows(&self) -> (r: Vec<DataRow>)
        ensures
            data_views(r@) == self@.data,
    {
        let mut out: Vec<DataRow> = Vec::new();
        let mut i: usize = 0;
        while i < self.data.len()
            invariant
                i <= self.data@.len(),
                out@.len() == i,
                forall|j: int| 0 <= j < i ==> (#[trigger] out@[j])@ == self.data@[j]@,
            decreases self.data@.len() - i,
        {
            out.push(self.data[i].copy());
            i += 1;
        }
        assert(data_views(out@) =~= self@.data);
        out
    }
}

// ---------------------------------------------------------------------------
// Data items
// ---------------------------------------------------------------------------

/// Some dataset called `name` has the stored identifier `id`.
pub open spec fn named_dataset(rows: Seq<DatasetEntry>, name: Seq<char>, id: Seq<char>) -> bool {
    exists|i: int|
        0 <= i < rows.len() && (#[trigger] rows[i]).id == id && rows[i].name == Some(name)
}

/// A data item with that content in a dataset with that name.
pub open spec fn holds_content(
    datasets: Seq<DatasetEntry>,
    d: DataEntry,
    name: Seq<char>,
    hash: Seq<char>,
) -> bool {
    d.content_hash == Some(hash) && d.dataset_id is Some && named_dataset(
        datasets,
        name,
        d.dataset_id->0,
    )
}

/// The first data item with that content in a dataset with that name.
pub open spec fn data_by_hash(
    datasets: Seq<DatasetEntry>,
    data: Seq<DataEntry>,
    name: Seq<char>,
    hash: Seq<char>,
) -> Option<Seq<char>>
    decreases data.len(),
{
    if data.len() == 0 {
        None
    } else {
        match data_by_hash(datasets, data.drop_last(), name, hash) {
            Some(id) => Some(id),
            None => if holds_content(datasets, data.last(), name, hash) {
                Some(data.last().id)
            } else {
                None
            },
        }
    }
}

proof fn hash_found_stays(
    datasets: Seq<DatasetEntry>,
    data: Seq<DataEntry>,
    name: Seq<char>,
    hash: Seq<char>,
    i: int,
)
    requires
        0 <= i <= data.len(),
        data_by_hash(datasets, data.take(i), name, hash) is Some,
    ensures
        data_by_hash(datasets, data, name, hash) == data_by_hash(
            datasets,
            data.take(i),
            name,
            hash,
        ),
    decreases data.len() - i,
{
    if i == data.len() {
        assert(data.take(i) =~= data);
    } else {
        assert(data.take(i + 1).drop_last() =~= data.take(i));
        hash_found_stays(datasets, data, name, hash, i + 1);
    }
}

/// Some data item has that stored identifier.
pub open spec fn has_data(data: Seq<DataEntry>, id: Seq<char>) -> bool {
    exists|i: int| 0 <= i < data.len() && (#[trigger] data[i]).id == id
}

/// Accepts the data items of a dataset.
pub open spec fn data_in(dataset: Seq<char>) -> spec_fn(DataEntry) -> bool {
    |d: DataEntry| d.dataset_id == Some(dataset)
}

/// Accepts the data items with another identifier.
pub open spec fn data_other_than(id: Seq<char>) -> spec_fn(DataEntry) -> bool {
    |d: DataEntry| d.id != id
}

/// The first data item with an identifier.
pub open spec fn data_index(data: Seq<DataEntry>, id: Seq<char>) -> Option<int>
    decreases data.len(),
{
    if data.len() == 0 {
        None
    } else {
        match data_index(data.drop_last(), id) {
            Some(i) => Some(i),
            None => if data.last().id == id {
                Some(data.len() - 1)
            } else {
                None
            },
        }
    }
}

/// `data_index` finds the first data item with the identifier, if there is one.
pub proof fn data_index_is_first(data: Seq<DataEntry>, id: Seq<char>)
    ensures
        match data_index(data, id) {
            Some(i) => 0 <= i < data.len() && data[i].id == id && forall|j: int|
                0 <= j < i ==> (#[trigger] data[j]).id != id,
            None => forall|j: int| 0 <= j < data.len() ==> (#[trigger] data[j]).id != id,
        },
    decreases data.len(),
{
    if data.len() > 0 {
        data_index_is_first(data.drop_last(), id);
        assert forall|j: int| 0 <= j < data.len() - 1 implies data[j] == data.drop_last()[j] by {}
    }
}

/// The recorded state of a data item; none where the item is not there.
pub open spec fn recorded_status(data: Seq<DataEntry>, id: Seq<char>) -> Option<Seq<char>> {
    match data_index(data, id) {
        Some(i) => data[i].pipeline_status,
        None => None,
    }
}

/// The data with another recorded state for one item.
pub open spec fn with_status(
    data: Seq<DataEntry>,
    id: Seq<char>,
    status: Seq<char>,
    now: Seq<char>,
) -> Seq<DataEntry> {
    match data_index(data, id) {
        Some(i) => data.update(
            i,
            DataEntry { pipeline_status: Some(status), updated_at: Some(now), ..data[i] },
        ),
        None => data,
    }
}

impl RelationalStore {
    /// Whether some dataset called `name` has the stored identifier `id`.
    fn contains_named(&self, name: &str, id: &str) -> (r: bool)
        ensures
            r == named_dataset(self@.datasets, name@, id@),
    {
        let ghost all = self@.datasets;
        let mut i: usize = 0;
        while i < self.datasets.len()
            invariant
                i <= self.datasets@.len(),
                all == dataset_views(self.datasets@),
                forall|j: int|
                    0 <= j < i ==> !((#[trigger] all[j]).id == id@ && all[j].name == Some(name@)),
            decreases self.datasets@.len() - i,
        {
            assert(all[i as int] == self.datasets@[i as int]@);
            if same(self.datasets[i].id.as_str(), id) && is_named(&self.datasets[i], name) {
                return true;
            }
            i += 1;
        }
        false
    }

    /// The stored identifier of a data item with that content in the dataset.
    pub fn find_data_by_hash(&self, dataset_name: &str, hash: &str) -> (r: Option<String>)
        ensures
            opt_view(r) == data_by_hash(self@.datasets, self@.data, dataset_name@, hash@),
    {
        let ghost all = self@.data;
        let ghost sets = self@.datasets;
        let mut i: usize = 0;
        while i < self.data.len()
            invariant
                i <= self.data@.len(),
                all == data_views(self.data@),
                sets == self@.datasets,
                data_by_hash(sets, all.take(i as int), dataset_name@, hash@) is None,
            decreases self.data@.len() - i,
        {
            assert(all.take(i + 1).drop_last() =~= all.take(i as int));
            assert(all.take(i + 1).last() == self.data@[i as int]@);
            let row = &self.data[i];
            let hit = match (&row.content_hash, &row.dataset_id) {
                (Some(h), Some(d)) => same(h.as_str(), hash) && self.contains_named(
                    dataset_name,
                    d.as_str(),
                ),
                _ => false,
            };
            if hit {
                proof {
                    hash_found_stays(sets, all, dataset_name@, hash@, i + 1);
                }
                return Some(owned(row.id.as_str()));
            }
            i += 1;
        }
        assert(all.take(all.len() as int) =~= all);
        None
    }

    /// The position of the first data item with a stored identifier.
    fn find_data(&self, id: &str) -> (r: Option<usize>)
        ensures
            match r {
                Some(i) => i < self.data@.len() && data_index(self@.data, id@) == Some(i as int),
                None => data_index(self@.data, id@) is None,
            },
    {
        let ghost all = self@.data;
        proof {
            data_index_is_first(all, id@);
        }
        let mut i: usize = 0;
        while i < self.data.len()
            invariant
                i <= self.data@.len(),
                all == data_views(self.data@),
                forall|j: int| 0 <= j < i ==> (#[trigger] all[j]).id != id@,
            decreases self.data@.len() - i,
        {
            assert(all[i as int].id == self.data@[i as int].id@);
            if same(self.data[i].id.as_str(), id) {
                proof {
                    data_index_is_first(all, id@);
                }
                return Some(i);
            }
            i += 1;
        }
        proof {
            data_index_is_first(all, id@);
        }
        None
    }

    /// Writes the row of one ingested text at the time `now`.
    pub fn insert_data_at(&mut self, d: &DataInsert, now: &str) -> (r: Result<(), RelationalError>)
        requires
            old(self).valid(),
        ensures
            final(self).valid(),
            match r {
                Ok(_) => !has_data(old(self)@.data, simple_text(d.id.value)) && final(self)@ == (
                Relations { data: old(self)@.data.push(data_entry_of(*d, now@)), ..old(self)@ }),
                Err(e) => e is Duplicate && has_data(old(self)@.data, simple_text(d.id.value))
                    && final(self)@ == old(self)@,
            },
    {
        let id = dashless(d.id);
        let ghost before = self@.data;
        proof {
            data_index_is_first(before, id@);
        }
        match self.find_data(id.as_str()) {
            Some(_) => {
                return Err(RelationalError::Duplicate);
            },
            None => {},
        }
        let key = run_key(d.run_id);
        let row = DataRow {
            id,
            name: Some(owned(d.name)),
            extension: Some(owned(d.extension)),
            mime_type: Some(owned(d.mime_type)),
            raw_data_location: Some(owned(d.raw_data_location)),
            owner_id: Some(owned(d.owner_id.as_str())),
            dataset_id: Some(dashless(d.dataset_id)),
            content_hash: Some(owned(d.content_hash)),
            raw_content_hash: Some(owned(d.content_hash)),
            pipeline_status: Some(
                json_pipeline_status(key.as_str(), "DATA_ITEM_PROCESSING_STARTED"),
            ),
            token_count: Some(d.token_count),
            data_size: Some(d.data_size),
            created_at: Some(owned(now)),
            updated_at: Some(owned(now)),
        };
        let ghost entry = row@;
        self.data.push(row);
        assert(self@.data =~= before.push(entry));
        proof {
            let after = self@.data;
            assert forall|i: int, j: int|
                #![trigger after[i], after[j]]
                0 <= i < j < after.len() implies after[i].id != after[j].id by {
                assert(after[i] == before[i]);
                if j < before.len() {
                    assert(after[j] == before[j]);
                }
            }
        }
        Ok(())
    }

    /// Writes the row of one ingested text now.
    pub fn insert_data(&mut self, d: &DataInsert) -> (r: Result<(), RelationalError>)
        requires
            old(self).valid(),
        ensures
            final(self).valid(),
            match r {
                Ok(_) => !has_data(old(self)@.data, simple_text(d.id.value)) && exists|
                    now: Seq<char>,
                |
                    is_clock_text(now) && final(self)@ == (Relations {
                        data: old(self)@.data.push(#[trigger] data_entry_of(*d, now)),
                        ..old(self)@
                    }),
                Err(e) => e is Duplicate && has_data(old(self)@.data, simple_text(d.id.value))
                    && final(self)@ == old(self)@,
            },
    {
        let now = sqlite_now_micros();
        self.insert_data_at(d, now.as_str())
    }

    /// The identifiers of the data items of a dataset; an error at the first
    /// that cannot be read.
    pub fn data_ids_for_dataset(&self, dataset_id: Uuid) -> (r: Result<
        Vec<Uuid>,
        RelationalError,
    >)
        ensures
            ({
                let rows = self@.data.filter(data_in(simple_text(dataset_id.value)));
                match r {
                    Ok(ids) => ids@.len() == rows.len() && forall|i: int|
                        0 <= i < ids@.len() ==> stored_uuid(rows[i].id) == Some(
                            (#[trigger] ids@[i]).value as int,
                        ),
                    Err(e) => e matches RelationalError::BadId(hex) && is_first_unread(
                        data_ids(rows),
                        hex@,
                    ),
                }
            }),
    {
        let key = dashless(dataset_id);
        let ghost all = self@.data;
        let ghost pred = data_in(key@);
        let ghost wanted = all.filter(pred);
        let mut out: Vec<Uuid> = Vec::new();
        let mut i: usize = 0;
        proof {
            filter_ends(all, pred);
        }
        while i < self.data.len()
            invariant
                i <= self.data@.len(),
                all == data_views(self.data@),
                pred == data_in(key@),
                key@ == simple_text(dataset_id.value),
                wanted == all.filter(pred),
                wanted == self@.data.filter(data_in(simple_text(dataset_id.value))),
                out@.len() == all.take(i as int).filter(pred).len(),
                forall|j: int|
                    0 <= j < out@.len() ==> stored_uuid(
                        all.take(i as int).filter(pred)[j].id,
                    ) == Some((#[trigger] out@[j]).value as int),
            decreases self.data@.len() - i,
        {
            let ghost before = all.take(i as int).filter(pred);
            proof {
                filter_step(all, i as int, pred);
            }
            let row = &self.data[i];
            let hit = match &row.dataset_id {
                Some(d) => same(d.as_str(), key.as_str()),
                None => false,
            };
            if hit {
                match parse_dashless(row.id.as_str()) {
                    Some(u) => {
                        out.push(u);
                    },
                    None => {
                        let hex = owned(row.id.as_str());
                        proof {
                            let now = before.push(all[i as int]);
                            prefix_of_filter(all, i + 1, pred);
                            let ids = data_ids(wanted);
                            assert forall|j: int| 0 <= j < before.len() implies stored_uuid(
                                #[trigger] ids[j],
                            ) is Some by {
                                assert(wanted[j] == now[j]);
                                assert(stored_uuid(before[j].id) == Some(out@[j].value as int));
                            }
                            assert(wanted[before.len() as int] == now[before.len() as int]);
                            assert(ids[before.len() as int] == hex@);
                            assert(is_first_unread(ids, hex@));
                        }
                        return Err(RelationalError::BadId(hex));
                    },
                }
            }
            i += 1;
        }
        proof {
            filter_ends(all, pred);
        }
        Ok(out)
    }

    /// Deletes one data item.
    pub fn delete_data(&mut self, data_id: Uuid)
        ensures
            final(self)@ == (Relations {
                data: old(self)@.data.filter(data_other_than(simple_text(data_id.value))),
                ..old(self)@
            }),
            old(self).valid() ==> final(self).valid(),
    {
        let key = dashless(data_id);
        let ghost pred = data_other_than(key@);
        let mut held: Vec<DataRow> = Vec::new();
        std::mem::swap(&mut held, &mut self.data);
        let ghost rows = held@;
        let ghost all = data_views(rows);
        let mut out: Vec<DataRow> = Vec::new();
        proof {
            filter_ends(all, pred);
            assert(data_views(out@) =~= Seq::<DataEntry>::empty());
        }
        for row in it: held
            invariant
                it.seq() == rows,
                all == data_views(rows),
                pred == data_other_than(key@),
                data_views(out@) == all.take(it.index() as int).filter(pred),
        {
            let ghost i = it.index() as int;
            let ghost before = data_views(out@);
            proof {
                filter_step(all, i, pred);
            }
            if !same(row.id.as_str(), key.as_str()) {
                out.push(row);
                assert(data_views(out@) =~= before.push(row@));
            }
        }
        proof {
            filter_ends(all, pred);
            if data_ok(all) {
                fewer_data_ok(all, pred);
            }
        }
        self.data = out;
    }

    /// Records a run over a data item as completed at the time `now`.
    pub fn mark_data_processed_at(&mut self, data_id: Uuid, run_id: Uuid, now: &str) -> (r: Result<
        (),
        RelationalError,
    >)
        ensures
            ({
                let id = simple_text(data_id.value);
                let before = old(self)@;
                let done = completed_of(
                    status_of(recorded_status(before.data, id)),
                    uuid_text(run_id.value),
                );
                match r {
                    Ok(_) => done matches Ok(doc) && final(self)@ == (Relations {
                        data: with_status(before.data, id, json_text(doc), now@),
                        ..before
                    }),
                    Err(e) => done is Err && final(self)@ == before && (e matches
                        RelationalError::Status(s) && s == done->Err_0),
                }
            }),
            old(self).valid() ==> final(self).valid(),
    {
        let id = dashless(data_id);
        let ghost before = self@.data;
        proof {
            data_index_is_first(before, id@);
        }
        let found = self.find_data(id.as_str());
        let text = match found {
            Some(i) => copy_opt(&self.data[i].pipeline_status),
            None => None,
        };
        assert(opt_view(text) == recorded_status(before, id@));
        let state = read_status(&text);
        let key = run_key(run_id);
        match completed_status(state, key.as_str()) {
            Ok(doc) => {
                match found {
                    Some(i) => {
                        let mut row = self.data[i].copy();
                        row.pipeline_status = Some(doc_text(&doc));
                        row.updated_at = Some(owned(now));
                        let ghost entry = row@;
                        self.data.set(i, row);
                        assert(self@.data =~= before.update(i as int, entry));
                    },
                    None => {},
                }
                Ok(())
            },
            Err(e) => Err(RelationalError::Status(e)),
        }
    }

    /// Records a run over a data item as completed now.
    pub fn mark_data_processed(&mut self, data_id: Uuid, dataset_id: Uuid, run_id: Uuid) -> (r:
        Result<(), RelationalError>)
        ensures
            ({
                let id = simple_text(data_id.value);
                let before = old(self)@;
                let done = completed_of(
                    status_of(recorded_status(before.data, id)),
                    uuid_text(run_id.value),
                );
                match r {
                    Ok(_) => done matches Ok(doc) && exists|now: Seq<char>|
                        is_clock_text(now) && final(self)@ == (Relations {
                            data: #[trigger] with_status(before.data, id, json_text(doc), now),
                            ..before
                        }),
                    Err(e) => done is Err && final(self)@ == before && (e matches
                        RelationalError::Status(s) && s == done->Err_0),
                }
            }),
            old(self).valid() ==> final(self).valid(),
    {
        let now = sqlite_now_micros();
        self.mark_data_processed_at(data_id, run_id, now.as_str())
    }
}

} // verus!
