//! What is kept of users, datasets and data items.

use vstd::prelude::*;

use crate::ingest::chunk::tokens_of;
use crate::json::{
    field_set_is_read, field_set_keeps_others, json_text, key_index, key_index_is_first, member,
    parsed_json, Json,
};
use crate::laws::remembering::{field_is_read, under};
use crate::number::digit;
use crate::remember::{content_hash_of, md5_digest, registered, Intake};
use crate::storage::dashless::stored_uuid;
use crate::storage::relational::{
    completed_in, completed_of, data_by_hash, data_entry_of, data_index, data_index_is_first,
    dataset_index, dataset_index_is_first, recorded_status, started_status, status_of, user_index,
    with_default_user, with_status, DataEntry, DataInsert, DatasetEntry, RelationalError,
    RelationalStore, Relations, StatusError, UserEntry,
};
use crate::text::blank;
use crate::uid::{simple_text, uuid_text, Uuid};

verus! {

// ---------------------------------------------------------------------------
// Registering a text
// ---------------------------------------------------------------------------

/// The user at `i` is the first with the default address.
pub open spec fn is_default_user(users: Seq<UserEntry>, i: int) -> bool {
    &&& 0 <= i < users.len()
    &&& users[i].email == "default_user@example.com"@
    &&& forall|j: int| 0 <= j < i ==> (#[trigger] users[j]).email != "default_user@example.com"@
}

proof fn default_user_is_found(users: Seq<UserEntry>, i: int)
    requires
        is_default_user(users, i),
    ensures
        user_index(users, "default_user@example.com"@) == Some(i),
    decreases users.len(),
{
    let head = users.drop_last();
    assert(forall|j: int| 0 <= j < head.len() ==> #[trigger] head[j] == users[j]);
    if i < head.len() {
        default_user_is_found(head, i);
    } else {
        no_user_is_found(head);
    }
}

proof fn no_user_is_found(users: Seq<UserEntry>)
    requires
        forall|j: int|
            0 <= j < users.len() ==> (#[trigger] users[j]).email != "default_user@example.com"@,
    ensures
        user_index(users, "default_user@example.com"@) is None,
    decreases users.len(),
{
    if users.len() > 0 {
        let head = users.drop_last();
        assert forall|j: int| 0 <= j < head.len() implies (#[trigger] head[j]).email
            != "default_user@example.com"@ by {
            assert(head[j] == users[j]);
        }
        assert(users[users.len() - 1].email != "default_user@example.com"@);
        no_user_is_found(head);
    }
}

/// Opening a store keeps its users and adds the default one only where no user has
/// its address.
pub proof fn default_user_is_added_once(users: Seq<UserEntry>, i: int)
    ensures
        is_default_user(users, i) ==> with_default_user(users) == users,
        (forall|j: int|
            0 <= j < users.len() ==> (#[trigger] users[j]).email != "default_user@example.com"@)
            ==> {
            let after = with_default_user(users);
            &&& after.len() == users.len() + 1
            &&& after.drop_last() == users
            &&& after.last().email == "default_user@example.com"@
            &&& after.last().id == simple_text(
                crate::ingest::ids::oid_of("reflect-mem/default_user"@),
            )
        },
{
    if is_default_user(users, i) {
        default_user_is_found(users, i);
    }
    if forall|j: int|
        0 <= j < users.len() ==> (#[trigger] users[j]).email != "default_user@example.com"@ {
        no_user_is_found(users);
        assert(with_default_user(users).drop_last() =~= users);
    }
}

/// A registered text has a row of its own, behind those that were there, which
/// stay. The row says what the text is called, where it lies, whose it is, which
/// dataset it is in, what it holds and how much, and when it was written.
pub proof fn registered_text_has_its_row(
    before: Relations,
    after: Relations,
    data: Seq<char>,
    dataset_name: Seq<char>,
    intake: Intake,
    dataset: u128,
    owner: int,
)
    requires
        registered(before, after, data, dataset_name, intake, dataset),
        is_default_user(before.users, owner),
    ensures
        after.data.len() == before.data.len() + 1,
        after.data.drop_last() == before.data,
        ({
            let row = after.data.last();
            let hash = content_hash_of(data);
            let size = vstd::utf8::encode_utf8(data).len();
            &&& row.id == simple_text(intake.data_id.value)
            &&& row.name == Some("text_"@ + hash)
            &&& row.extension == Some("txt"@)
            &&& row.mime_type == Some("text/plain"@)
            &&& row.raw_data_location == Some("file://"@ + intake.location@)
            &&& row.owner_id == Some(before.users[owner].id)
            &&& row.dataset_id == Some(simple_text(dataset))
            &&& row.content_hash == Some(hash)
            &&& row.raw_content_hash == Some(hash)
            &&& row.created_at == Some(intake.now@)
            &&& row.updated_at == Some(intake.now@)
            &&& (tokens_of(data) <= i64::MAX ==> row.token_count is Some && row.token_count->0
                == tokens_of(data))
            &&& (size <= i64::MAX ==> row.data_size is Some && row.data_size->0 == size)
        }),
{
    default_user_is_found(before.users, owner);
}

/// It goes into the first dataset of the name it was given, which is made where
/// there is none, with the fresh identifier and the default user's.
pub proof fn registered_text_is_in_its_dataset(
    before: Relations,
    after: Relations,
    data: Seq<char>,
    dataset_name: Seq<char>,
    intake: Intake,
    dataset: u128,
    owner: int,
    k: int,
)
    requires
        registered(before, after, data, dataset_name, intake, dataset),
        is_default_user(before.users, owner),
    ensures
        0 <= k < before.datasets.len() && before.datasets[k].name == Some(dataset_name) && (forall|
            j: int,
        |
            0 <= j < k ==> (#[trigger] before.datasets[j]).name != Some(dataset_name)) ==> {
            &&& after.datasets == before.datasets
            &&& stored_uuid(before.datasets[k].id) == Some(dataset as int)
        },
        (forall|j: int|
            0 <= j < before.datasets.len() ==> (#[trigger] before.datasets[j]).name != Some(
                dataset_name,
            )) ==> {
            &&& after.datasets.len() == before.datasets.len() + 1
            &&& after.datasets.drop_last() == before.datasets
            &&& after.datasets.last().id == simple_text(intake.fresh_dataset.value)
            &&& after.datasets.last().name == Some(dataset_name)
            &&& after.datasets.last().owner_id == Some(before.users[owner].id)
            &&& after.datasets.last().created_at == Some(intake.now@)
            &&& dataset == intake.fresh_dataset.value
        },
{
    default_user_is_found(before.users, owner);
    dataset_index_is_first(before.datasets, dataset_name);
    if let Some(i) = dataset_index(before.datasets, dataset_name) {
        if i < k {
            assert(before.datasets[i].name == Some(dataset_name));
        }
    } else {
        assert(after.datasets.drop_last() =~= before.datasets);
    }
}

// ---------------------------------------------------------------------------
// Finding a text again
// ---------------------------------------------------------------------------

/// The data item has that content and is in a dataset of that name.
pub open spec fn keeps_content(
    datasets: Seq<DatasetEntry>,
    d: DataEntry,
    name: Seq<char>,
    hash: Seq<char>,
) -> bool {
    &&& d.content_hash == Some(hash)
    &&& exists|k: int|
        0 <= k < datasets.len() && (#[trigger] datasets[k]).name == Some(name) && d.dataset_id
            == Some(datasets[k].id)
}

/// A text is found by its content in a dataset exactly where some data item keeps
/// it there, and the first that does is given.
pub proof fn content_is_found(
    datasets: Seq<DatasetEntry>,
    data: Seq<DataEntry>,
    name: Seq<char>,
    hash: Seq<char>,
)
    ensures
        match data_by_hash(datasets, data, name, hash) {
            Some(id) => exists|j: int|
                0 <= j < data.len() && (#[trigger] data[j]).id == id && keeps_content(
                    datasets,
                    data[j],
                    name,
                    hash,
                ) && forall|i: int|
                    0 <= i < j ==> !keeps_content(datasets, #[trigger] data[i], name, hash),
            None => forall|i: int|
                0 <= i < data.len() ==> !keeps_content(datasets, #[trigger] data[i], name, hash),
        },
    decreases data.len(),
{
    if data.len() > 0 {
        let head = data.drop_last();
        assert(forall|j: int| 0 <= j < head.len() ==> #[trigger] head[j] == data[j]);
        content_is_found(datasets, head, name, hash);
        let last = data.last();
        assert(data[data.len() - 1] == last);
        assert(keeps_content(datasets, last, name, hash)
            == crate::storage::relational::holds_content(datasets, last, name, hash)) by {
            if keeps_content(datasets, last, name, hash) {
                let k = choose|k: int|
                    0 <= k < datasets.len() && (#[trigger] datasets[k]).name == Some(name)
                        && last.dataset_id == Some(datasets[k].id);
                assert(datasets[k].id == last.dataset_id->0);
            }
            if crate::storage::relational::holds_content(datasets, last, name, hash) {
                let k = choose|k: int|
                    0 <= k < datasets.len() && (#[trigger] datasets[k]).id == last.dataset_id->0
                        && datasets[k].name == Some(name);
                assert(datasets[k].name == Some(name));
            }
        }
        if let Some(id) = data_by_hash(datasets, head, name, hash) {
            let j = choose|j: int|
                0 <= j < head.len() && (#[trigger] head[j]).id == id && keeps_content(
                    datasets,
                    head[j],
                    name,
                    hash,
                ) && forall|i: int|
                    0 <= i < j ==> !keeps_content(datasets, #[trigger] head[i], name, hash);
            assert(data[j].id == id);
            assert forall|i: int| 0 <= i < j implies !keeps_content(
                datasets,
                #[trigger] data[i],
                name,
                hash,
            ) by {
                assert(head[i] == data[i]);
            }
        } else if keeps_content(datasets, last, name, hash) {
            let j = data.len() - 1;
            assert(data[j].id == last.id);
            assert forall|i: int| 0 <= i < j implies !keeps_content(
                datasets,
                #[trigger] data[i],
                name,
                hash,
            ) by {
                assert(head[i] == data[i]);
            }
        } else {
            assert forall|i: int| 0 <= i < data.len() implies !keeps_content(
                datasets,
                #[trigger] data[i],
                name,
                hash,
            ) by {
                if i < head.len() {
                    assert(head[i] == data[i]);
                }
            }
        }
    }
}

// ---------------------------------------------------------------------------
// Runs
// ---------------------------------------------------------------------------

/// What a recorded state says of a run in a pipeline.
pub open spec fn says_of_run(state: Json, pipeline: Seq<char>, run: Seq<char>) -> Option<Json> {
    match member(state, pipeline) {
        Some(entry) => member(entry, run),
        None => None,
    }
}

proof fn completing_is_read(
    state: Json,
    pipeline: Seq<char>,
    run: Seq<char>,
    done: Json,
    other: Seq<char>,
)
    requires
        completed_in(state, pipeline, run) == Ok::<Json, StatusError>(done),
    ensures
        says_of_run(done, pipeline, run) == Some(Json::Text("DATA_ITEM_PROCESSING_COMPLETED"@)),
        other != pipeline ==> member(done, other) == member(state, other),
        forall|r: Seq<char>| r != run ==> #[trigger] says_of_run(done, pipeline, r) == says_of_run(
            state,
            pipeline,
            r,
        ),
{
    let fields = state->Object_0;
    let entry = match key_index(fields, pipeline) {
        Some(i) => fields[i].1,
        None => Json::Object(Seq::empty()),
    };
    let runs = entry->Object_0;
    let text = Json::Text("DATA_ITEM_PROCESSING_COMPLETED"@);
    let after = crate::json::with_field(runs, run, text);
    field_set_is_read(runs, run, text);
    field_set_is_read(fields, pipeline, Json::Object(after));
    if other != pipeline {
        field_set_keeps_others(fields, pipeline, Json::Object(after), other);
    }
    assert forall|r: Seq<char>| r != run implies #[trigger] says_of_run(done, pipeline, r)
        == says_of_run(state, pipeline, r) by {
        field_set_keeps_others(runs, run, text, r);
        if key_index(fields, pipeline) is None {
            key_index_is_first(Seq::<(Seq<char>, Json)>::empty(), r);
        }
    }
}

/// A completed run is recorded as such in both pipelines; what is recorded of other
/// runs and of other pipelines stays.
pub proof fn completed_run_is_recorded(state: Json, run: Seq<char>, done: Json, other: Seq<char>)
    requires
        completed_of(state, run) == Ok::<Json, StatusError>(done),
    ensures
        says_of_run(done, "add_pipeline"@, run) == Some(
            Json::Text("DATA_ITEM_PROCESSING_COMPLETED"@),
        ),
        says_of_run(done, "cognify_pipeline"@, run) == Some(
            Json::Text("DATA_ITEM_PROCESSING_COMPLETED"@),
        ),
        other != run ==> says_of_run(done, "add_pipeline"@, other) == says_of_run(
            state,
            "add_pipeline"@,
            other,
        ) && says_of_run(done, "cognify_pipeline"@, other) == says_of_run(
            state,
            "cognify_pipeline"@,
            other,
        ),
        other != "add_pipeline"@ && other != "cognify_pipeline"@ ==> member(done, other) == member(
            state,
            other,
        ),
{
    reveal_strlit("add_pipeline");
    reveal_strlit("cognify_pipeline");
    assert("add_pipeline"@.len() != "cognify_pipeline"@.len());
    let first = completed_in(state, "add_pipeline"@, run)->Ok_0;
    completing_is_read(state, "add_pipeline"@, run, first, "cognify_pipeline"@);
    completing_is_read(first, "cognify_pipeline"@, run, done, "add_pipeline"@);
    completing_is_read(state, "add_pipeline"@, run, first, other);
    completing_is_read(first, "cognify_pipeline"@, run, done, other);
    assert(says_of_run(done, "add_pipeline"@, other) == says_of_run(
        first,
        "add_pipeline"@,
        other,
    ));
    assert(says_of_run(first, "cognify_pipeline"@, other) == says_of_run(
        state,
        "cognify_pipeline"@,
        other,
    ));
}

/// A run can be completed on any recorded object whose entries for the pipelines,
/// where there are any, are objects too.
pub proof fn runs_can_be_completed(fields: Seq<(Seq<char>, Json)>, run: Seq<char>)
    requires
        under(fields, "add_pipeline"@) is Some ==> under(fields, "add_pipeline"@)->0 is Object,
        under(fields, "cognify_pipeline"@) is Some ==> under(fields, "cognify_pipeline"@)->0
            is Object,
    ensures
        completed_of(Json::Object(fields), run) is Ok,
{
    reveal_strlit("add_pipeline");
    reveal_strlit("cognify_pipeline");
    assert("add_pipeline"@.len() != "cognify_pipeline"@.len());
    let first = completed_in(Json::Object(fields), "add_pipeline"@, run)->Ok_0;
    completing_is_read(Json::Object(fields), "add_pipeline"@, run, first, "cognify_pipeline"@);
    let held = first->Object_0;
    assert(member(first, "cognify_pipeline"@) == under(fields, "cognify_pipeline"@));
    match key_index(held, "cognify_pipeline"@) {
        Some(i) => {
            assert(held[i].1 is Object);
        },
        None => {},
    }
}

/// A begun run is recorded as completed where the text was added, and under its
/// state where it is taken in.
pub proof fn begun_run_is_recorded(run: Seq<char>, state: Seq<char>)
    ensures
        says_of_run(started_status(run, state), "add_pipeline"@, run) == Some(
            Json::Text("DATA_ITEM_PROCESSING_COMPLETED"@),
        ),
        says_of_run(started_status(run, state), "cognify_pipeline"@, run) == Some(
            Json::Text(state),
        ),
{
    reveal_strlit("add_pipeline");
    reveal_strlit("cognify_pipeline");
    assert("add_pipeline"@.len() != "cognify_pipeline"@.len());
    let fields = started_status(run, state)->Object_0;
    field_is_read(fields, 0);
    field_is_read(fields, 1);
    let first = fields[0].1->Object_0;
    let second = fields[1].1->Object_0;
    field_is_read(first, 0);
    field_is_read(second, 0);
}

/// Recording the state of a data item changes the state and the time of its row,
/// and nothing else in any row.
pub proof fn recording_changes_one_row(
    data: Seq<DataEntry>,
    id: Seq<char>,
    status: Seq<char>,
    now: Seq<char>,
    j: int,
)
    requires
        0 <= j < data.len(),
    ensures
        with_status(data, id, status, now).len() == data.len(),
        data[j].id != id ==> with_status(data, id, status, now)[j] == data[j],
        data[j].id == id && (forall|i: int| 0 <= i < j ==> (#[trigger] data[i]).id != id)
            ==> with_status(data, id, status, now)[j] == (DataEntry {
            pipeline_status: Some(status),
            updated_at: Some(now),
            ..data[j]
        }),
{
    data_index_is_first(data, id);
    if let Some(i) = data_index(data, id) {
        if j < i {
            assert(data[j].id != id);
        }
        if i < j {
            assert(data[i].id == id);
        }
    } else {
        assert(data[j].id != id);
    }
}

// ---------------------------------------------------------------------------
// Rows of texts
// ---------------------------------------------------------------------------

/// The row of an ingested text holds what is written of it.
pub proof fn inserted_row_tells_its_text(d: DataInsert, now: Seq<char>)
    ensures
        ({
            let row = data_entry_of(d, now);
            &&& row.id == simple_text(d.id.value)
            &&& row.name == Some(d.name@)
            &&& row.extension == Some(d.extension@)
            &&& row.mime_type == Some(d.mime_type@)
            &&& row.raw_data_location == Some(d.raw_data_location@)
            &&& row.owner_id == Some(d.owner_id@)
            &&& row.dataset_id == Some(simple_text(d.dataset_id.value))
            &&& row.content_hash == Some(d.content_hash@)
            &&& row.token_count == Some(d.token_count)
            &&& row.data_size == Some(d.data_size)
            &&& row.created_at == Some(now)
            &&& row.updated_at == Some(now)
        }),
{
}

/// A content hash spells the digest of all bytes of the text, each in two digits.
pub proof fn content_hash_spells_the_digest(data: Seq<char>, i: int)
    requires
        0 <= i < md5_digest(vstd::utf8::encode_utf8(data)).len(),
    ensures
        content_hash_of(data).len() == 2 * md5_digest(vstd::utf8::encode_utf8(data)).len(),
        content_hash_of(data)[2 * i] == digit(
            md5_digest(vstd::utf8::encode_utf8(data))[i] as int / 16,
        ),
        content_hash_of(data)[2 * i + 1] == digit(
            md5_digest(vstd::utf8::encode_utf8(data))[i] as int % 16,
        ),
{
    crate::laws::texts::bytes_are_two_digits(md5_digest(vstd::utf8::encode_utf8(data)), i);
}

/// What is recorded of a data item is what its text spells; a blank text, one that
/// spells nothing and none at all stand for an empty record.
pub proof fn records_are_read(text: Seq<char>)
    ensures
        !blank(text) && parsed_json(text) is Some ==> status_of(Some(text)) == parsed_json(text)->0,
        blank(text) || parsed_json(text) is None ==> status_of(Some(text)) == Json::Object(
            Seq::empty(),
        ),
        status_of(None) == Json::Object(Seq::empty()),
{
}

/// Recording a run as completed keeps what was recorded of other runs: the new
/// record of the row says of this run that it is completed in both pipelines, and of
/// any other what the old one said.
pub proof fn completed_run_is_written(
    store: &mut RelationalStore,
    data: Uuid,
    run: Uuid,
    now: &str,
    r: Result<(), RelationalError>,
    j: int,
    text: Seq<char>,
    state: Json,
    other: Seq<char>,
)
    requires
        call_ensures(RelationalStore::mark_data_processed_at, (store, data, run, now), r),
        r is Ok,
        0 <= j < old(store)@.data.len(),
        old(store)@.data[j].id == simple_text(data.value),
        forall|i: int|
            0 <= i < j ==> (#[trigger] old(store)@.data[i]).id != simple_text(data.value),
        old(store)@.data[j].pipeline_status == Some(text),
        !blank(text),
        parsed_json(text) == Some(state),
        other != uuid_text(run.value),
    ensures
        exists|done: Json|
            final(store)@.data[j].pipeline_status == Some(#[trigger] json_text(done))
                && says_of_run(done, "add_pipeline"@, uuid_text(run.value)) == Some(
                Json::Text("DATA_ITEM_PROCESSING_COMPLETED"@),
            ) && says_of_run(done, "cognify_pipeline"@, uuid_text(run.value)) == Some(
                Json::Text("DATA_ITEM_PROCESSING_COMPLETED"@),
            ) && says_of_run(done, "add_pipeline"@, other) == says_of_run(
                state,
                "add_pipeline"@,
                other,
            ) && says_of_run(done, "cognify_pipeline"@, other) == says_of_run(
                state,
                "cognify_pipeline"@,
                other,
            ),
        final(store)@.data[j].updated_at == Some(now@),
        final(store)@.data[j].content_hash == old(store)@.data[j].content_hash,
        final(store)@.data.len() == old(store)@.data.len(),
{
    let rows = old(store)@.data;
    let id = simple_text(data.value);
    let name = uuid_text(run.value);
    data_index_is_first(rows, id);
    let at = data_index(rows, id)->0;
    if at < j {
        assert(rows[at].id != id);
    }
    if j < at {
        assert(rows[j].id != id);
    }
    let done = completed_of(state, name)->Ok_0;
    assert(status_of(recorded_status(rows, id)) == state);
    completed_run_is_recorded(state, name, done, other);
    recording_changes_one_row(rows, id, json_text(done), now@, j);
    assert(final(store)@.data[j].pipeline_status == Some(json_text(done)));
}

} // verus!
