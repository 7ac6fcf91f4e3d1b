//! The vector tables: their names, what a search in one finds, and whether one
//! can be used.

use vstd::prelude::*;
use vstd::string::*;

use crate::pattern::{replace_char, replace_char_of};
use crate::storage::vector_writer::{DataType, Field, Schema};
use crate::text::{concat3, copy_opt, opt_view, owned, same};

verus! {

/// The vectors of entity names.
pub const TABLE_ENTITY: &'static str = "Entity_name";

/// The vectors of document chunks.
pub const TABLE_DOCUMENT_CHUNK: &'static str = "DocumentChunk_text";

/// The vectors of document names.
pub const TABLE_TEXT_DOCUMENT: &'static str = "TextDocument_name";

/// The vectors of summaries.
pub const TABLE_TEXT_SUMMARY: &'static str = "TextSummary_text";

/// The vectors of entity types.
pub const TABLE_ENTITY_TYPE: &'static str = "EntityType_name";

/// The vectors of relationship names.
pub const TABLE_EDGE_TYPE: &'static str = "EdgeType_relationship_name";

/// The vectors of questions and answers of a session.
pub const TABLE_SESSION_QA: &'static str = "SessionQAVector_text";

/// One row that a search found, with its distance.
#[derive(Debug, Clone, PartialEq)]
pub struct VectorHit<T> {
    pub id: String,
    pub distance: T,
    pub text: Option<String>,
    pub node_type: Option<String>,
    pub document_id: Option<String>,
    pub document_name: Option<String>,
}

/// What a search gave, by column. A column that is not there, or does not hold
/// what it should, is absent.
#[derive(Debug)]
pub struct Found<T> {
    pub rows: usize,
    pub ids: Option<Vec<String>>,
    pub distances: Option<Vec<T>>,
    /// The columns of the payload that hold texts, by name.
    pub payload: Option<Vec<(String, Vec<Option<String>>)>>,
}

/// Why the answer to a search, or a table, cannot be used.
#[derive(Debug, PartialEq)]
pub enum VectorError {
    /// A search result has no identifiers.
    NoIds,
    /// The table has no column of vectors.
    NoVectors,
    /// The column of vectors does not hold vectors of one width.
    NotFixedSize,
    /// The vectors of the table have another width.
    Width { stored: usize, expected: usize },
}

impl<T> Found<T> {
    /// Every column has as many cells as there are rows.
    pub open spec fn valid(&self) -> bool {
        &&& self.ids matches Some(ids) ==> ids@.len() == self.rows
        &&& self.distances matches Some(list) ==> list@.len() == self.rows
        &&& self.payload matches Some(columns) ==> forall|i: int|
            0 <= i < columns@.len() ==> (#[trigger] columns@[i]).1@.len() == self.rows
    }
}

/// The first payload column of that name.
pub open spec fn column_named(
    columns: Seq<(String, Vec<Option<String>>)>,
    name: Seq<char>,
) -> Option<int>
    decreases columns.len(),
{
    if columns.len() == 0 {
        None
    } else {
        match column_named(columns.drop_last(), name) {
            Some(i) => Some(i),
            None => if columns.last().0@ == name {
                Some(columns.len() - 1)
            } else {
                None
            },
        }
    }
}

/// The text of a row in the payload column of that name.
pub open spec fn payload_text<T>(f: Found<T>, name: Seq<char>, row: int) -> Option<Seq<char>> {
    match f.payload {
        Some(columns) => match column_named(columns@, name) {
            Some(i) => opt_view(columns@[i].1@[row]),
            None => None,
        },
        None => None,
    }
}

/// What stands in a row of what a search gave.
pub open spec fn is_hit<T>(h: VectorHit<T>, f: Found<T>, row: int, missing: T) -> bool {
    &&& f.ids matches Some(ids) && h.id@ == ids@[row]@
    &&& h.distance == (match f.distances {
        Some(list) => list@[row],
        None => missing,
    })
    &&& opt_view(h.text) == payload_text(f, "text"@, row)
    &&& opt_view(h.node_type) == payload_text(f, "type"@, row)
    &&& opt_view(h.document_id) == payload_text(f, "document_id"@, row)
    &&& opt_view(h.document_name) == payload_text(f, "document_name"@, row)
}

/// How many rows there are before a batch.
pub open spec fn rows_before<T>(batches: Seq<Found<T>>) -> nat
    decreases batches.len(),
{
    if batches.len() == 0 {
        0
    } else {
        rows_before(batches.drop_last()) + batches.last().rows as nat
    }
}

/// The hits are the rows of the batches, one batch behind the other.
pub open spec fn are_hits<T>(
    hits: Seq<VectorHit<T>>,
    batches: Seq<Found<T>>,
    missing: T,
) -> bool {
    &&& hits.len() == rows_before(batches)
    &&& forall|b: int, row: int|
        #![trigger batches[b], hits[rows_before(batches.take(b)) + row]]
        0 <= b < batches.len() && 0 <= row < batches[b].rows ==> is_hit(
            hits[rows_before(batches.take(b)) + row],
            batches[b],
            row,
            missing,
        )
}

proof fn column_found_stays(
    columns: Seq<(String, Vec<Option<String>>)>,
    name: Seq<char>,
    i: int,
)
    requires
        0 <= i <= columns.len(),
        column_named(columns.take(i), name) is Some,
    ensures
        column_named(columns, name) == column_named(columns.take(i), name),
    decreases columns.len() - i,
{
    if i == columns.len() {
        assert(columns.take(i) =~= columns);
    } else {
        assert(columns.take(i + 1).drop_last() =~= columns.take(i));
        column_found_stays(columns, name, i + 1);
    }
}

/// The first payload column of that name.
fn find_column(columns: &Vec<(String, Vec<Option<String>>)>, name: &str) -> (r: Option<usize>)
    ensures
        match r {
            Some(i) => i < columns@.len() && column_named(columns@, name@) == Some(i as int),
            None => column_named(columns@, name@) is None,
        },
{
    let mut i: usize = 0;
    while i < columns.len()
        invariant
            i <= columns@.len(),
            column_named(columns@.take(i as int), name@) is None,
        decreases columns@.len() - i,
    {
        assert(columns@.take(i + 1).drop_last() =~= columns@.take(i as int));
        if same(columns[i].0.as_str(), name) {
            proof {
                column_found_stays(columns@, name@, i + 1);
            }
            return Some(i);
        }
        i += 1;
    }
    assert(columns@.take(columns@.len() as int) =~= columns@);
    None
}

/// The text of a row in the payload column of that name.
fn struct_str<T>(f: &Found<T>, name: &str, row: usize) -> (r: Option<String>)
    requires
        f.valid(),
        row < f.rows,
    ensures
        opt_view(r) == payload_text(*f, name@, row as int),
{
    match &f.payload {
        Some(columns) => match find_column(columns, name) {
            Some(i) => copy_opt(&columns[i].1[row]),
            None => None,
        },
        None => None,
    }
}

/// The rows that a search gave, batch by batch; `missing` stands for a distance
/// that is not there.
pub fn hits_of<T: Copy>(batches: &[Found<T>], missing: T) -> (r: Result<
    Vec<VectorHit<T>>,
    VectorError,
>)
    requires
        forall|b: int| 0 <= b < batches@.len() ==> (#[trigger] batches@[b]).valid(),
    ensures
        match r {
            Ok(hits) => are_hits(hits@, batches@, missing),
            Err(e) => e is NoIds,
        },
        r is Err <==> exists|b: int| 0 <= b < batches@.len() && (#[trigger] batches@[b]).ids is None,
{
    let mut hits: Vec<VectorHit<T>> = Vec::new();
    let mut b: usize = 0;
    while b < batches.len()
        invariant
            b <= batches@.len(),
            forall|k: int| 0 <= k < batches@.len() ==> (#[trigger] batches@[k]).valid(),
            forall|k: int| 0 <= k < b ==> (#[trigger] batches@[k]).ids is Some,
            are_hits(hits@, batches@.take(b as int), missing),
        decreases batches@.len() - b,
    {
        let f = &batches[b];
        let ids = match &f.ids {
            Some(ids) => ids,
            None => {
                assert(batches@[b as int].ids is None);
                return Err(VectorError::NoIds);
            },
        };
        let ghost before = hits@;
        let ghost base = before.len() as int;
        let mut row: usize = 0;
        while row < f.rows
            invariant
                row <= f.rows,
                f.valid(),
                f.ids == Some(*ids),
                hits@.len() == base + row,
                base == before.len(),
                forall|k: int| 0 <= k < base ==> #[trigger] hits@[k] == before[k],
                forall|k: int|
                    0 <= k < row ==> is_hit(#[trigger] hits@[base + k], *f, k, missing),
            decreases f.rows - row,
        {
            let distance = match &f.distances {
                Some(list) => list[row],
                None => missing,
            };
            let hit = VectorHit {
                id: owned(ids[row].as_str()),
                distance,
                text: struct_str(f, "text", row),
                node_type: struct_str(f, "type", row),
                document_id: struct_str(f, "document_id", row),
                document_name: struct_str(f, "document_name", row),
            };
            assert(is_hit(hit, *f, row as int, missing));
            hits.push(hit);
            row += 1;
        }
        proof {
            let upto = batches@.take(b + 1);
            assert(upto.drop_last() =~= batches@.take(b as int));
            assert forall|k: int, i: int|
                #![trigger upto[k], hits@[rows_before(upto.take(k)) + i]]
                0 <= k < upto.len() && 0 <= i < upto[k].rows implies is_hit(
                hits@[rows_before(upto.take(k)) + i],
                upto[k],
                i,
                missing,
            ) by {
                assert(upto.take(k) =~= batches@.take(b as int).take(k));
                if k < b {
                    let old = batches@.take(b as int);
                    assert(old[k] == upto[k]);
                    rows_stay_within(old, k);
                    assert(is_hit(before[rows_before(old.take(k)) + i], old[k], i, missing));
                    assert(hits@[rows_before(old.take(k)) + i] == before[rows_before(old.take(k))
                        + i]);
                } else {
                    assert(batches@.take(b as int).take(k) =~= batches@.take(b as int));
                    assert(is_hit(hits@[base + i], *f, i, missing));
                }
            }
        }
        b += 1;
    }
    assert(batches@.take(batches@.len() as int) =~= batches@);
    Ok(hits)
}

/// The rows of a batch lie within all rows.
proof fn rows_stay_within<T>(batches: Seq<Found<T>>, k: int)
    requires
        0 <= k < batches.len(),
    ensures
        rows_before(batches.take(k)) + batches[k].rows <= rows_before(batches),
    decreases batches.len(),
{
    if k == batches.len() - 1 {
        assert(batches.take(k) =~= batches.drop_last());
    } else {
        rows_stay_within(batches.drop_last(), k);
        assert(batches.drop_last().take(k) =~= batches.take(k));
    }
}

// ---------------------------------------------------------------------------
// Tables
// ---------------------------------------------------------------------------

/// The first column of that name.
pub open spec fn field_named(fields: Seq<Field>, name: Seq<char>) -> Option<int>
    decreases fields.len(),
{
    if fields.len() == 0 {
        None
    } else {
        match field_named(fields.drop_last(), name) {
            Some(i) => Some(i),
            None => if fields.last().name@ == name {
                Some(fields.len() - 1)
            } else {
                None
            },
        }
    }
}

/// The width of the vectors in a table, if it has any of one width.
pub open spec fn vector_width(s: Schema) -> Result<nat, VectorError> {
    match field_named(s.fields@, "vector"@) {
        Some(i) => match s.fields@[i].data_type {
            DataType::FixedSizeList(_, n) => Ok(n as nat),
            _ => Err(VectorError::NotFixedSize),
        },
        None => Err(VectorError::NoVectors),
    }
}

proof fn field_found_stays(fields: Seq<Field>, name: Seq<char>, i: int)
    requires
        0 <= i <= fields.len(),
        field_named(fields.take(i), name) is Some,
    ensures
        field_named(fields, name) == field_named(fields.take(i), name),
    decreases fields.len() - i,
{
    if i == fields.len() {
        assert(fields.take(i) =~= fields);
    } else {
        assert(fields.take(i + 1).drop_last() =~= fields.take(i));
        field_found_stays(fields, name, i + 1);
    }
}

/// The first column of that name.
fn find_field_named(fields: &Vec<Field>, name: &str) -> (r: Option<usize>)
    ensures
        match r {
            Some(i) => i < fields@.len() && field_named(fields@, name@) == Some(i as int),
            None => field_named(fields@, name@) is None,
        },
{
    let mut i: usize = 0;
    while i < fields.len()
        invariant
            i <= fields@.len(),
            field_named(fields@.take(i as int), name@) is None,
        decreases fields@.len() - i,
    {
        assert(fields@.take(i + 1).drop_last() =~= fields@.take(i as int));
        if same(fields[i].name.as_str(), name) {
            proof {
                field_found_stays(fields@, name@, i + 1);
            }
            return Some(i);
        }
        i += 1;
    }
    assert(fields@.take(fields@.len() as int) =~= fields@);
    None
}

/// Whether a table holds vectors of the expected width.
pub fn validate(schema: &Schema, expected_dims: usize) -> (r: Result<(), VectorError>)
    ensures
        match r {
            Ok(_) => vector_width(*schema) == Ok::<nat, VectorError>(expected_dims as nat),
            Err(VectorError::Width { stored, expected }) => vector_width(*schema) == Ok::<
                nat,
                VectorError,
            >(stored as nat) && expected == expected_dims && stored != expected,
            Err(e) => vector_width(*schema) == Err::<nat, VectorError>(e),
        },
{
    let at = match find_field_named(&schema.fields, "vector") {
        Some(i) => i,
        None => return Err(VectorError::NoVectors),
    };
    match &schema.fields[at].data_type {
        DataType::FixedSizeList(_, stored) => if *stored == expected_dims {
            Ok(())
        } else {
            Err(VectorError::Width { stored: *stored, expected: expected_dims })
        },
        _ => Err(VectorError::NotFixedSize),
    }
}

/// The condition for the row with an identifier.
pub open spec fn id_filter_of(id: Seq<char>) -> Seq<char> {
    "id = '"@ + replace_char_of(id, '\'', "''"@) + "'"@
}

/// The condition for the row with an identifier; quotes in it are doubled.
pub fn id_filter(id: &str) -> (r: String)
    ensures
        r@ == id_filter_of(id@),
{
    let quoted = replace_char(id, '\'', "''");
    concat3("id = '", quoted.as_str(), "'")
}

} // verus!
