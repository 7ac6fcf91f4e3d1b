//! Rows for the vector tables.
//!
//! A table is called `{type}_{index field}`. Each of its rows is an identifier,
//! a vector and a payload; the payload is a struct whose fields the table
//! declares, and new rows are built against whatever it declares.

use vstd::prelude::*;
use vstd::string::*;

use crate::ingest::assemble::point_views;
use crate::ingest::datapoints::{Datapoint, DatapointRow};
use crate::json::{
    doc_view_parts, doc_views, field_views, member, set_field, with_field, Doc, Fields, Json, Num,
};
use crate::storage::groups::{ascending, entry_map, items_under, with_item, Groups};
use crate::text::{concat3, opt_view, owned, views};
use crate::uid::uuid_text;

verus! {

// ---------------------------------------------------------------------------
// Table shapes
// ---------------------------------------------------------------------------

/// What a column holds.
#[derive(Debug, PartialEq)]
pub enum DataType {
    Utf8,
    LargeUtf8,
    Int64,
    Boolean,
    Float32,
    Float64,
    List(Box<Field>),
    FixedSizeList(Box<Field>, usize),
    Struct(Vec<Field>),
    /// Any other type, by its name.
    Other(String),
}

/// A column: its name, what it holds, and whether it may hold nothing.
#[derive(Debug, PartialEq)]
pub struct Field {
    pub name: String,
    pub data_type: DataType,
    pub nullable: bool,
}

/// The columns of a table.
#[derive(Debug, PartialEq)]
pub struct Schema {
    pub fields: Vec<Field>,
}

/// A column with that name, of a plain type.
pub open spec fn is_field(f: Field, name: Seq<char>, data_type: DataType, nullable: bool) -> bool {
    f.name@ == name && f.data_type == data_type && f.nullable == nullable
}

/// A column with lists of texts.
pub open spec fn is_text_list(f: Field, name: Seq<char>) -> bool {
    &&& f.name@ == name
    &&& f.nullable
    &&& f.data_type matches DataType::List(item) && is_field(*item, "item"@, DataType::Utf8, true)
}

/// The columns of the payload in a table that is made anew.
pub open spec fn is_canonical_payload(fields: Seq<Field>) -> bool {
    &&& fields.len() == 22
    &&& is_field(fields[0], "id"@, DataType::Utf8, false)
    &&& is_field(fields[1], "created_at"@, DataType::Int64, true)
    &&& is_field(fields[2], "updated_at"@, DataType::Int64, true)
    &&& is_field(fields[3], "ontology_valid"@, DataType::Boolean, true)
    &&& is_field(fields[4], "ontology_uri"@, DataType::Utf8, true)
    &&& is_field(fields[5], "version"@, DataType::Int64, true)
    &&& is_field(fields[6], "topological_rank"@, DataType::Int64, true)
    &&& is_field(fields[7], "valid_to"@, DataType::Int64, true)
    &&& is_field(fields[8], "type"@, DataType::Utf8, true)
    &&& is_text_list(fields[9], "belongs_to_set"@)
    &&& is_field(fields[10], "source_pipeline"@, DataType::Utf8, true)
    &&& is_field(fields[11], "source_task"@, DataType::Utf8, true)
    &&& is_field(fields[12], "source_node_set"@, DataType::Utf8, true)
    &&& is_field(fields[13], "source_user"@, DataType::Utf8, true)
    &&& is_field(fields[14], "source_content_hash"@, DataType::Utf8, true)
    &&& is_field(fields[15], "feedback_weight"@, DataType::Float64, true)
    &&& is_field(fields[16], "importance_weight"@, DataType::Float64, true)
    &&& is_field(fields[17], "text"@, DataType::Utf8, true)
    &&& is_field(fields[18], "document_id"@, DataType::Utf8, true)
    &&& is_field(fields[19], "document_name"@, DataType::Utf8, true)
    &&& is_field(fields[20], "chunk_index"@, DataType::Int64, true)
    &&& is_field(fields[21], "source_chunk_id"@, DataType::Utf8, true)
}

/// The columns of a table that is made anew for vectors of a width.
pub open spec fn is_canonical(s: Schema, dims: nat) -> bool {
    let fields = s.fields@;
    &&& fields.len() == 3
    &&& is_field(fields[0], "id"@, DataType::Utf8, false)
    &&& fields[1].name@ == "vector"@
    &&& !fields[1].nullable
    &&& fields[1].data_type matches DataType::FixedSizeList(item, n) && n == dims && is_field(
        *item,
        "item"@,
        DataType::Float32,
        true,
    )
    &&& fields[2].name@ == "payload"@
    &&& fields[2].nullable
    &&& fields[2].data_type matches DataType::Struct(payload) && is_canonical_payload(payload@)
}

/// A column of a plain type.
fn field(name: &str, data_type: DataType, nullable: bool) -> (r: Field)
    ensures
        is_field(r, name@, data_type, nullable),
{
    Field { name: owned(name), data_type, nullable }
}

/// The columns of the payload in a table that is made anew.
pub fn canonical_payload_fields() -> (r: Vec<Field>)
    ensures
        is_canonical_payload(r@),
{
    let sets = Field {
        name: owned("belongs_to_set"),
        data_type: DataType::List(Box::new(field("item", DataType::Utf8, true))),
        nullable: true,
    };
    let mut out: Vec<Field> = Vec::new();
    out.push(field("id", DataType::Utf8, false));
    out.push(field("created_at", DataType::Int64, true));
    out.push(field("updated_at", DataType::Int64, true));
    out.push(field("ontology_valid", DataType::Boolean, true));
    out.push(field("ontology_uri", DataType::Utf8, true));
    out.push(field("version", DataType::Int64, true));
    out.push(field("topological_rank", DataType::Int64, true));
    out.push(field("valid_to", DataType::Int64, true));
    out.push(field("type", DataType::Utf8, true));
    out.push(sets);
    out.push(field("source_pipeline", DataType::Utf8, true));
    out.push(field("source_task", DataType::Utf8, true));
    out.push(field("source_node_set", DataType::Utf8, true));
    out.push(field("source_user", DataType::Utf8, true));
    out.push(field("source_content_hash", DataType::Utf8, true));
    out.push(field("feedback_weight", DataType::Float64, true));
    out.push(field("importance_weight", DataType::Float64, true));
    out.push(field("text", DataType::Utf8, true));
    out.push(field("document_id", DataType::Utf8, true));
    out.push(field("document_name", DataType::Utf8, true));
    out.push(field("chunk_index", DataType::Int64, true));
    out.push(field("source_chunk_id", DataType::Utf8, true));
    out
}

/// The columns of a table that is made anew for vectors of a width.
pub fn canonical_schema(dims: usize) -> (r: Schema)
    ensures
        is_canonical(r, dims as nat),
{
    let item = Box::new(field("item", DataType::Float32, true));
    let mut fields: Vec<Field> = Vec::new();
    fields.push(field("id", DataType::Utf8, false));
    fields.push(
        Field {
            name: owned("vector"),
            data_type: DataType::FixedSizeList(item, dims),
            nullable: false,
        },
    );
    fields.push(
        Field {
            name: owned("payload"),
            data_type: DataType::Struct(canonical_payload_fields()),
            nullable: true,
        },
    );
    Schema { fields }
}

// ---------------------------------------------------------------------------
// Columns
// ---------------------------------------------------------------------------

/// The cells of one payload column.
#[derive(Debug)]
pub enum Column {
    Texts(Vec<Option<String>>),
    Ints(Vec<Option<i64>>),
    Bools(Vec<Option<bool>>),
    Numbers(Vec<Option<Num>>),
    /// Lists of texts, one behind the other: the list of row `i` is what stands
    /// from `offsets[i]` up to `offsets[i + 1]`, where `present[i]` says that
    /// there is one.
    Lists { present: Vec<bool>, offsets: Vec<usize>, items: Vec<Option<String>> },
}

/// Why rows do not fit a table.
#[derive(Debug, PartialEq)]
pub enum BatchError {
    /// The table has so many columns.
    Columns(usize),
    /// The second column does not hold vectors of one width.
    NotFixedSize,
    /// A vector has another width than the table's.
    Dimensions { found: usize, expected: usize },
    /// The payload is not a struct.
    NotStruct,
    /// The payload column of that name has a type that is not supported.
    Unsupported(String),
}

/// The document in a cell.
pub open spec fn cell(v: Option<&Doc>) -> Option<Json> {
    match v {
        Some(d) => Some(d@),
        None => None,
    }
}

/// The documents in the cells of a column.
pub open spec fn cells(values: Seq<Option<&Doc>>) -> Seq<Option<Json>> {
    values.map_values(|v: Option<&Doc>| cell(v))
}

/// The text in a cell.
pub open spec fn text_cell(v: Option<Json>) -> Option<Seq<char>> {
    match v {
        Some(Json::Text(s)) => Some(s),
        _ => None,
    }
}

/// The 64-bit integer in a cell.
pub open spec fn int_cell(v: Option<Json>) -> Option<int> {
    match v {
        Some(Json::Int(n)) if n <= i64::MAX => Some(n),
        _ => None,
    }
}

/// The truth value in a cell.
pub open spec fn bool_cell(v: Option<Json>) -> Option<bool> {
    match v {
        Some(Json::Bool(b)) => Some(b),
        _ => None,
    }
}

/// The number in a cell.
pub open spec fn number_cell(v: Option<Json>) -> Option<Json> {
    match v {
        Some(Json::Int(n)) => Some(Json::Int(n)),
        Some(Json::Float(n)) => Some(Json::Float(n)),
        _ => None,
    }
}

/// The items of the list in a cell, each a text or nothing.
pub open spec fn list_cell(v: Option<Json>) -> Seq<Option<Seq<char>>> {
    match v {
        Some(Json::List(items)) => items.map_values(|j: Json| text_cell(Some(j))),
        _ => Seq::empty(),
    }
}

/// Something stands in a cell.
pub open spec fn filled(v: Option<Json>) -> bool {
    v matches Some(d) && d != Json::Null
}

/// The views of optional texts.
pub open spec fn opt_views(list: Seq<Option<String>>) -> Seq<Option<Seq<char>>> {
    list.map_values(|o: Option<String>| opt_view(o))
}

/// `items` are the lists one behind the other, cut at `offsets`.
pub open spec fn are_lists(
    offsets: Seq<usize>,
    items: Seq<Option<Seq<char>>>,
    values: Seq<Option<Json>>,
) -> bool {
    &&& offsets.len() == values.len() + 1
    &&& offsets[0] == 0
    &&& offsets.last() == items.len()
    &&& forall|i: int|
        0 <= i < values.len() ==> (#[trigger] offsets[i]) <= offsets[i + 1] <= items.len()
            && items.subrange(offsets[i] as int, offsets[i + 1] as int) == list_cell(values[i])
}

/// The column has the cells that its type takes from the documents.
pub open spec fn is_column(c: Column, data_type: DataType, values: Seq<Option<Json>>) -> bool {
    match data_type {
        DataType::Utf8 | DataType::LargeUtf8 => c matches Column::Texts(list) && opt_views(list@)
            == values.map_values(|v: Option<Json>| text_cell(v)),
        DataType::Int64 => c matches Column::Ints(list) && list@.len() == values.len() && forall|
            i: int,
        |
            0 <= i < list@.len() ==> (match #[trigger] list@[i] {
                Some(n) => Some(n as int),
                None => None,
            }) == int_cell(values[i]),
        DataType::Boolean => c matches Column::Bools(list) && list@ == values.map_values(
            |v: Option<Json>| bool_cell(v),
        ),
        DataType::Float64 => c matches Column::Numbers(list) && list@.len() == values.len()
            && forall|i: int|
            0 <= i < list@.len() ==> (match #[trigger] list@[i] {
                Some(n) => Some(n@),
                None => None,
            }) == number_cell(values[i]),
        DataType::List(_) => c matches Column::Lists { present, offsets, items } && are_lists(
            offsets@,
            opt_views(items@),
            values,
        ) && present@ == values.map_values(|v: Option<Json>| filled(v)),
        _ => false,
    }
}

/// A payload column of that type can be built.
pub open spec fn supported(data_type: DataType) -> bool {
    match data_type {
        DataType::Utf8 | DataType::LargeUtf8 | DataType::Int64 | DataType::Boolean
        | DataType::Float64 | DataType::List(_) => true,
        _ => false,
    }
}

/// The texts of cells.
fn text_column(values: &[Option<&Doc>]) -> (r: Vec<Option<String>>)
    ensures
        opt_views(r@) == cells(values@).map_values(|v: Option<Json>| text_cell(v)),
{
    let mut out: Vec<Option<String>> = Vec::new();
    let mut i: usize = 0;
    while i < values.len()
        invariant
            i <= values@.len(),
            out@.len() == i,
            forall|j: int|
                0 <= j < i ==> opt_view(#[trigger] out@[j]) == text_cell(cell(values@[j])),
        decreases values@.len() - i,
    {
        out.push(
            match values[i] {
                Some(d) => match d.as_str() {
                    Some(s) => Some(owned(s)),
                    None => None,
                },
                None => None,
            },
        );
        i += 1;
    }
    assert(opt_views(out@) =~= cells(values@).map_values(|v: Option<Json>| text_cell(v)));
    out
}

/// The integers of cells.
fn int_column(values: &[Option<&Doc>]) -> (r: Vec<Option<i64>>)
    ensures
        r@.len() == values@.len(),
        forall|i: int|
            0 <= i < r@.len() ==> (match #[trigger] r@[i] {
                Some(n) => Some(n as int),
                None => None,
            }) == int_cell(cells(values@)[i]),
{
    let mut out: Vec<Option<i64>> = Vec::new();
    let mut i: usize = 0;
    while i < values.len()
        invariant
            i <= values@.len(),
            out@.len() == i,
            forall|j: int|
                0 <= j < i ==> (match #[trigger] out@[j] {
                    Some(n) => Some(n as int),
                    None => None,
                }) == int_cell(cell(values@[j])),
        decreases values@.len() - i,
    {
        out.push(
            match values[i] {
                Some(d) => d.as_i64(),
                None => None,
            },
        );
        i += 1;
    }
    out
}

/// The truth values of cells.
fn bool_column(values: &[Option<&Doc>]) -> (r: Vec<Option<bool>>)
    ensures
        r@ == cells(values@).map_values(|v: Option<Json>| bool_cell(v)),
{
    broadcast use doc_view_parts;

    let mut out: Vec<Option<bool>> = Vec::new();
    let mut i: usize = 0;
    while i < values.len()
        invariant
            i <= values@.len(),
            out@.len() == i,
            forall|j: int| 0 <= j < i ==> #[trigger] out@[j] == bool_cell(cell(values@[j])),
        decreases values@.len() - i,
    {
        out.push(
            match values[i] {
                Some(Doc::Bool(b)) => Some(*b),
                _ => None,
            },
        );
        i += 1;
    }
    assert(out@ =~= cells(values@).map_values(|v: Option<Json>| bool_cell(v)));
    out
}

/// The numbers of cells.
fn number_column(values: &[Option<&Doc>]) -> (r: Vec<Option<Num>>)
    ensures
        r@.len() == values@.len(),
        forall|i: int|
            0 <= i < r@.len() ==> (match #[trigger] r@[i] {
                Some(n) => Some(n@),
                None => None,
            }) == number_cell(cells(values@)[i]),
{
    broadcast use doc_view_parts;

    let mut out: Vec<Option<Num>> = Vec::new();
    let mut i: usize = 0;
    while i < values.len()
        invariant
            i <= values@.len(),
            out@.len() == i,
            forall|j: int|
                0 <= j < i ==> (match #[trigger] out@[j] {
                    Some(n) => Some(n@),
                    None => None,
                }) == number_cell(cell(values@[j])),
        decreases values@.len() - i,
    {
        out.push(
            match values[i] {
                Some(Doc::Num(Num::Pos(n))) => Some(Num::Pos(*n)),
                Some(Doc::Num(Num::Neg(n))) => Some(Num::Neg(*n)),
                Some(Doc::Num(Num::Float(f))) => Some(Num::Float(f.copy())),
                _ => None,
            },
        );
        i += 1;
    }
    out
}

/// The texts of a list, or nothing for what is none.
fn item_texts(v: Option<&Doc>, out: &mut Vec<Option<String>>)
    ensures
        opt_views(final(out)@) == opt_views(old(out)@) + list_cell(cell(v)),
{
    broadcast use doc_view_parts;

    let ghost start = opt_views(out@);
    assert(start + Seq::empty() =~= start);
    match v {
        Some(Doc::List(items)) => {
            let ghost all = list_cell(cell(v));
            let mut i: usize = 0;
            assert(start + all.take(0) =~= start);
            while i < items.len()
                invariant
                    i <= items@.len(),
                    all.len() == items@.len(),
                    all == list_cell(Some(Json::List(doc_views(items@)))),
                    opt_views(out@) == start + all.take(i as int),
                decreases items@.len() - i,
            {
                let ghost before = opt_views(out@);
                let text = match items[i].as_str() {
                    Some(s) => Some(owned(s)),
                    None => None,
                };
                assert(all[i as int] == opt_view(text));
                out.push(text);
                assert(opt_views(out@) =~= before.push(all[i as int]));
                assert(all.take(i + 1) =~= all.take(i as int).push(all[i as int]));
                i += 1;
            }
            assert(all.take(all.len() as int) =~= all);
        },
        _ => {},
    }
}

/// The lists of cells, one behind the other, and where each begins.
fn list_column(values: &[Option<&Doc>]) -> (r: (Vec<usize>, Vec<Option<String>>))
    ensures
        are_lists(r.0@, opt_views(r.1@), cells(values@)),
{
    let ghost all = cells(values@);
    let mut offsets: Vec<usize> = Vec::new();
    let mut items: Vec<Option<String>> = Vec::new();
    offsets.push(0);
    let mut i: usize = 0;
    while i < values.len()
        invariant
            i <= values@.len(),
            all == cells(values@),
            are_lists(offsets@, opt_views(items@), all.take(i as int)),
        decreases values@.len() - i,
    {
        let ghost had = opt_views(items@);
        let ghost cuts = offsets@;
        item_texts(values[i], &mut items);
        offsets.push(items.len());
        proof {
            let now = opt_views(items@);
            let upto = all.take(i + 1);
            assert(now =~= had + list_cell(all[i as int]));
            assert forall|k: int| 0 <= k < upto.len() implies (#[trigger] offsets@[k])
                <= offsets@[k + 1] <= now.len() && now.subrange(
                offsets@[k] as int,
                offsets@[k + 1] as int,
            ) == list_cell(upto[k]) by {
                if k < i {
                    assert(offsets@[k] == cuts[k] && offsets@[k + 1] == cuts[k + 1]);
                    assert(all.take(i as int)[k] == upto[k]);
                    assert(now.subrange(cuts[k] as int, cuts[k + 1] as int) =~= had.subrange(
                        cuts[k] as int,
                        cuts[k + 1] as int,
                    ));
                } else {
                    assert(offsets@[k] == cuts[k]);
                    assert(now.subrange(had.len() as int, now.len() as int) =~= list_cell(
                        all[i as int],
                    ));
                }
            }
        }
        i += 1;
    }
    assert(all.take(all.len() as int) =~= all);
    (offsets, items)
}

/// Where something stands in the cells.
fn filled_column(values: &[Option<&Doc>]) -> (r: Vec<bool>)
    ensures
        r@ == cells(values@).map_values(|v: Option<Json>| filled(v)),
{
    broadcast use doc_view_parts;

    let mut out: Vec<bool> = Vec::new();
    let mut i: usize = 0;
    while i < values.len()
        invariant
            i <= values@.len(),
            out@.len() == i,
            forall|j: int| 0 <= j < i ==> #[trigger] out@[j] == filled(cell(values@[j])),
        decreases values@.len() - i,
    {
        out.push(
            match values[i] {
                None => false,
                Some(Doc::Null) => false,
                Some(_) => true,
            },
        );
        i += 1;
    }
    assert(out@ =~= cells(values@).map_values(|v: Option<Json>| filled(v)));
    out
}

/// One payload column, populated from documents; a cell that is missing or null
/// is null in it.
pub fn array_for(field: &Field, values: &[Option<&Doc>]) -> (r: Result<Column, BatchError>)
    ensures
        match r {
            Ok(c) => is_column(c, field.data_type, cells(values@)),
            Err(e) => e matches BatchError::Unsupported(name) && name@ == field.name@
                && !supported(field.data_type),
        },
        supported(field.data_type) ==> r is Ok,
{
    match &field.data_type {
        DataType::Utf8 | DataType::LargeUtf8 => Ok(Column::Texts(text_column(values))),
        DataType::Int64 => Ok(Column::Ints(int_column(values))),
        DataType::Boolean => Ok(Column::Bools(bool_column(values))),
        DataType::Float64 => Ok(Column::Numbers(number_column(values))),
        DataType::List(_) => {
            let (offsets, items) = list_column(values);
            Ok(Column::Lists { present: filled_column(values), offsets, items })
        },
        _ => Err(BatchError::Unsupported(owned(field.name.as_str()))),
    }
}

// ---------------------------------------------------------------------------
// Batches
// ---------------------------------------------------------------------------

/// A row to append: an identifier, a vector, and the payload.
#[derive(Debug)]
pub struct VectorRow<T> {
    pub id: String,
    pub vector: Vec<T>,
    pub payload: Doc,
}

/// Rows laid out by column.
#[derive(Debug)]
pub struct Batch<T> {
    pub ids: Vec<String>,
    /// The vectors, one behind the other, each of this width.
    pub dims: usize,
    pub vectors: Vec<T>,
    /// The columns of the payload, in the order of the table.
    pub payload: Vec<Column>,
}

/// The identifiers of rows.
pub open spec fn row_ids<T>(rows: Seq<VectorRow<T>>) -> Seq<Seq<char>> {
    rows.map_values(|r: VectorRow<T>| r.id@)
}

/// The vectors of rows, one behind the other.
pub open spec fn row_vectors<T>(rows: Seq<VectorRow<T>>) -> Seq<T>
    decreases rows.len(),
{
    if rows.len() == 0 {
        Seq::empty()
    } else {
        row_vectors(rows.drop_last()) + rows.last().vector@
    }
}

/// What stands under a name in the payloads of rows.
pub open spec fn payload_cells<T>(rows: Seq<VectorRow<T>>, name: Seq<char>) -> Seq<Option<Json>> {
    rows.map_values(|r: VectorRow<T>| member(r.payload@, name))
}

/// The width of the vectors that the second column holds.
pub open spec fn table_width(s: Schema) -> Option<nat> {
    match s.fields@[1].data_type {
        DataType::FixedSizeList(_, n) => Some(n as nat),
        _ => None,
    }
}

/// Every vector has that width.
pub open spec fn all_wide<T>(rows: Seq<VectorRow<T>>, dims: nat) -> bool {
    forall|i: int| 0 <= i < rows.len() ==> (#[trigger] rows[i]).vector@.len() == dims
}

/// Why rows do not fit a table; nothing where they do.
pub open spec fn misfit<T>(s: Schema, rows: Seq<VectorRow<T>>, e: BatchError) -> bool {
    let fields = s.fields@;
    let payload = fields[2].data_type;
    match e {
        BatchError::Columns(n) => n == fields.len() && n != 3,
        BatchError::NotFixedSize => fields.len() == 3 && table_width(s) is None,
        BatchError::Dimensions { found, expected } => {
            &&& fields.len() == 3
            &&& table_width(s) == Some(expected as nat)
            &&& exists|i: int|
                0 <= i < rows.len() && (#[trigger] rows[i]).vector@.len() == found && found
                    != expected && all_wide(rows.take(i), expected as nat)
        },
        BatchError::NotStruct => {
            &&& fields.len() == 3
            &&& table_width(s) matches Some(n) && all_wide(rows, n)
            &&& !(payload is Struct)
        },
        BatchError::Unsupported(name) => {
            &&& fields.len() == 3
            &&& table_width(s) matches Some(n) && all_wide(rows, n)
            &&& payload matches DataType::Struct(columns) && exists|i: int|
                0 <= i < columns@.len() && (#[trigger] columns@[i]).name@ == name@ && !supported(
                    columns@[i].data_type,
                ) && forall|j: int|
                    0 <= j < i ==> supported((#[trigger] columns@[j]).data_type)
        },
    }
}

/// The rows laid out against the table.
pub open spec fn is_batch<T>(b: Batch<T>, s: Schema, rows: Seq<VectorRow<T>>) -> bool {
    &&& s.fields@.len() == 3
    &&& table_width(s) == Some(b.dims as nat)
    &&& all_wide(rows, b.dims as nat)
    &&& views(b.ids@) == row_ids(rows)
    &&& b.vectors@ == row_vectors(rows)
    &&& s.fields@[2].data_type matches DataType::Struct(columns) && b.payload@.len()
        == columns@.len() && forall|i: int|
        0 <= i < columns@.len() ==> is_column(
            #[trigger] b.payload@[i],
            columns@[i].data_type,
            payload_cells(rows, columns@[i].name@),
        )
}

/// What stands under a name in the payloads of rows.
fn payload_values<'a, T>(rows: &'a [VectorRow<T>], name: &str) -> (r: Vec<Option<&'a Doc>>)
    ensures
        cells(r@) == payload_cells(rows@, name@),
{
    let mut out: Vec<Option<&'a Doc>> = Vec::new();
    let mut i: usize = 0;
    while i < rows.len()
        invariant
            i <= rows@.len(),
            out@.len() == i,
            forall|j: int|
                0 <= j < i ==> cell(#[trigger] out@[j]) == member(rows@[j].payload@, name@),
        decreases rows@.len() - i,
    {
        out.push(rows[i].payload.get(name));
        i += 1;
    }
    assert(cells(out@) =~= payload_cells(rows@, name@));
    out
}

/// The vectors of rows, one behind the other; where one has another width, its
/// width.
fn flat_vectors<T: Copy>(rows: &[VectorRow<T>], dims: usize) -> (r: Result<Vec<T>, usize>)
    ensures
        match r {
            Ok(flat) => all_wide(rows@, dims as nat) && flat@ == row_vectors(rows@),
            Err(found) => found != dims && exists|i: int|
                0 <= i < rows@.len() && (#[trigger] rows@[i]).vector@.len() == found && all_wide(
                    rows@.take(i),
                    dims as nat,
                ),
        },
{
    let mut flat: Vec<T> = Vec::new();
    let mut i: usize = 0;
    assert(flat@ =~= row_vectors(rows@.take(0)));
    while i < rows.len()
        invariant
            i <= rows@.len(),
            all_wide(rows@.take(i as int), dims as nat),
            flat@ == row_vectors(rows@.take(i as int)),
        decreases rows@.len() - i,
    {
        if rows[i].vector.len() != dims {
            return Err(rows[i].vector.len());
        }
        let ghost before = flat@;
        let v = &rows[i].vector;
        let mut k: usize = 0;
        assert(before + v@.take(0) =~= before);
        while k < v.len()
            invariant
                k <= v@.len(),
                flat@ == before + v@.take(k as int),
            decreases v@.len() - k,
        {
            assert(v@.take(k + 1) =~= v@.take(k as int).push(v@[k as int]));
            flat.push(v[k]);
            k += 1;
        }
        proof {
            assert(v@.take(v@.len() as int) =~= v@);
            assert(rows@.take(i + 1).drop_last() =~= rows@.take(i as int));
            let upto = rows@.take(i + 1);
            assert forall|j: int| 0 <= j < upto.len() implies (#[trigger] upto[j]).vector@.len()
                == dims by {
                if j < i {
                    assert(rows@.take(i as int)[j] == upto[j]);
                }
            }
        }
        i += 1;
    }
    assert(rows@.take(rows@.len() as int) =~= rows@);
    Ok(flat)
}

/// Lays rows out against a table.
pub fn build_batch<T: Copy>(schema: &Schema, rows: &[VectorRow<T>]) -> (r: Result<
    Batch<T>,
    BatchError,
>)
    ensures
        match r {
            Ok(b) => is_batch(b, *schema, rows@),
            Err(e) => misfit(*schema, rows@, e),
        },
{
    if schema.fields.len() != 3 {
        return Err(BatchError::Columns(schema.fields.len()));
    }
    let mut ids: Vec<String> = Vec::new();
    let mut i: usize = 0;
    while i < rows.len()
        invariant
            i <= rows@.len(),
            ids@.len() == i,
            forall|j: int| 0 <= j < i ==> (#[trigger] ids@[j])@ == rows@[j].id@,
        decreases rows@.len() - i,
    {
        ids.push(owned(rows[i].id.as_str()));
        i += 1;
    }
    assert(views(ids@) =~= row_ids(rows@));
    let dims: usize = match &schema.fields[1].data_type {
        DataType::FixedSizeList(_, size) => *size,
        _ => return Err(BatchError::NotFixedSize),
    };
    let vectors = match flat_vectors(rows, dims) {
        Ok(flat) => flat,
        Err(found) => return Err(BatchError::Dimensions { found, expected: dims }),
    };
    let columns = match &schema.fields[2].data_type {
        DataType::Struct(columns) => columns,
        _ => return Err(BatchError::NotStruct),
    };
    let mut payload: Vec<Column> = Vec::new();
    let mut c: usize = 0;
    while c < columns.len()
        invariant
            c <= columns@.len(),
            schema.fields@.len() == 3,
            schema.fields@[2].data_type == DataType::Struct(*columns),
            table_width(*schema) == Some(dims as nat),
            all_wide(rows@, dims as nat),
            payload@.len() == c,
            forall|j: int| 0 <= j < c ==> supported((#[trigger] columns@[j]).data_type),
            forall|j: int|
                0 <= j < c ==> is_column(
                    #[trigger] payload@[j],
                    columns@[j].data_type,
                    payload_cells(rows@, columns@[j].name@),
                ),
        decreases columns@.len() - c,
    {
        let values = payload_values(rows, columns[c].name.as_str());
        match array_for(&columns[c], &values) {
            Ok(column) => payload.push(column),
            Err(e) => return Err(e),
        }
        c += 1;
    }
    Ok(Batch { ids, dims, vectors, payload })
}

// ---------------------------------------------------------------------------
// Data points
// ---------------------------------------------------------------------------

/// The table that holds the vector of a data point: that of its type and its
/// first index field.
pub open spec fn table_of(p: DatapointRow) -> Seq<char> {
    p.type_ + "_"@ + (if p.index_fields.len() > 0 {
        p.index_fields[0]
    } else {
        "name"@
    })
}

/// The positions of data points by table.
pub open spec fn grouped(points: Seq<DatapointRow>) -> Map<Seq<char>, Seq<usize>>
    decreases points.len(),
{
    if points.len() == 0 {
        Map::empty()
    } else {
        with_item(
            grouped(points.drop_last()),
            table_of(points.last()),
            (points.len() - 1) as usize,
        )
    }
}

/// The table that holds the vector of a data point.
pub fn table_for(dp: &Datapoint) -> (r: String)
    ensures
        r@ == table_of(dp@),
{
    if dp.index_fields.len() > 0 {
        concat3(dp.type_.as_str(), "_", dp.index_fields[0].as_str())
    } else {
        concat3(dp.type_.as_str(), "_", "name")
    }
}

/// The positions of data points by table, the tables ascending.
pub fn group_points(dps: &[Datapoint]) -> (r: Vec<(String, Vec<usize>)>)
    ensures
        ascending(r@),
        entry_map(r@) == grouped(point_views(dps@)),
{
    let ghost all = point_views(dps@);
    let mut groups: Groups<usize> = Groups::new();
    let mut i: usize = 0;
    assert(groups@ == grouped(all.take(0)));
    while i < dps.len()
        invariant
            i <= dps@.len(),
            groups.valid(),
            all == point_views(dps@),
            groups@ == grouped(all.take(i as int)),
        decreases dps@.len() - i,
    {
        assert(all.take(i + 1).drop_last() =~= all.take(i as int));
        let table = table_for(&dps[i]);
        groups.add_item(table.as_str(), i);
        i += 1;
    }
    assert(all.take(all.len() as int) =~= all);
    groups.into_entries()
}

/// Every data point stands in the group of its table, and nothing else does;
/// positions ascend within a group.
pub proof fn grouping_is_exact(points: Seq<DatapointRow>)
    requires
        points.len() <= usize::MAX,
    ensures
        forall|i: int|
            0 <= i < points.len() ==> items_under(
                grouped(points),
                table_of(#[trigger] points[i]),
            ).contains(i as usize),
        forall|table: Seq<char>, k: int|
            0 <= k < items_under(grouped(points), table).len() ==> {
                let at = #[trigger] items_under(grouped(points), table)[k];
                at < points.len() && table_of(points[at as int]) == table
            },
        forall|table: Seq<char>, a: int, b: int|
            #![trigger items_under(grouped(points), table)[a], items_under(grouped(points), table)[b]]
            0 <= a < b < items_under(grouped(points), table).len() ==> items_under(
                grouped(points),
                table,
            )[a] < items_under(grouped(points), table)[b],
    decreases points.len(),
{
    if points.len() > 0 {
        let head = points.drop_last();
        let last = points.len() - 1;
        grouping_is_exact(head);
        let before = grouped(head);
        let after = grouped(points);
        let name = table_of(points.last());
        assert(after == with_item(before, name, last as usize));
        assert forall|table: Seq<char>| #[trigger] items_under(after, table) == (if table == name {
            items_under(before, table).push(last as usize)
        } else {
            items_under(before, table)
        }) by {}
        assert forall|i: int| 0 <= i < points.len() implies items_under(
            after,
            table_of(#[trigger] points[i]),
        ).contains(i as usize) by {
            let table = table_of(points[i]);
            if i < last {
                assert(head[i] == points[i]);
                let old = items_under(before, table);
                assert(old.contains(i as usize));
                let k = choose|k: int| 0 <= k < old.len() && old[k] == i as usize;
                assert(items_under(after, table)[k] == i as usize);
            } else {
                let old = items_under(before, name);
                assert(items_under(after, name)[old.len() as int] == last as usize);
            }
        }
        assert forall|table: Seq<char>, k: int|
            0 <= k < items_under(after, table).len() implies {
            let at = #[trigger] items_under(after, table)[k];
            at < points.len() && table_of(points[at as int]) == table
        } by {
            let old = items_under(before, table);
            if k < old.len() {
                let at = old[k];
                assert(items_under(after, table)[k] == at);
                assert(head[at as int] == points[at as int]);
            }
        }
        assert forall|table: Seq<char>, a: int, b: int|
            #![trigger items_under(after, table)[a], items_under(after, table)[b]]
            0 <= a < b < items_under(after, table).len() implies items_under(after, table)[a]
            < items_under(after, table)[b] by {
            let old = items_under(before, table);
            assert(items_under(after, table)[a] == old[a]);
            if b < old.len() {
                assert(items_under(after, table)[b] == old[b]);
            } else {
                assert(old[a] < head.len());
            }
        }
    }
}

/// The texts to embed of the data points at the given positions.
pub fn group_texts(dps: &[Datapoint], group: &[usize]) -> (r: Vec<String>)
    requires
        forall|k: int| 0 <= k < group@.len() ==> #[trigger] group@[k] < dps@.len(),
    ensures
        r@.len() == group@.len(),
        forall|k: int|
            0 <= k < r@.len() ==> (#[trigger] r@[k])@ == dps@[group@[k] as int].embeddable_text@,
{
    let mut out: Vec<String> = Vec::new();
    let mut i: usize = 0;
    while i < group.len()
        invariant
            i <= group@.len(),
            forall|k: int| 0 <= k < group@.len() ==> #[trigger] group@[k] < dps@.len(),
            out@.len() == i,
            forall|k: int|
                0 <= k < i ==> (#[trigger] out@[k])@ == dps@[group@[k] as int].embeddable_text@,
        decreases group@.len() - i,
    {
        out.push(owned(dps[group[i]].embeddable_text.as_str()));
        i += 1;
    }
    out
}

/// The payload of a row: the properties, with the identifier and the type.
pub open spec fn payload_of(properties: Json, id: Seq<char>, type_: Seq<char>) -> Json {
    let fields = match properties {
        Json::Object(fields) => fields,
        _ => Seq::empty(),
    };
    Json::Object(
        with_field(with_field(fields, "id"@, Json::Text(id)), "type"@, Json::Text(type_)),
    )
}

/// The payload of a row: the properties, with the identifier and the type.
pub fn row_payload(properties: Doc, id: &str, type_: &str) -> (r: Doc)
    ensures
        r@ == payload_of(properties@, id@, type_@),
{
    broadcast use doc_view_parts;

    let mut fields: Fields = match properties {
        Doc::Object(fields) => fields,
        _ => {
            let none: Fields = Vec::new();
            assert(field_views(none@) =~= Seq::empty());
            none
        },
    };
    set_field(&mut fields, "id", Doc::Text(owned(id)));
    set_field(&mut fields, "type", Doc::Text(owned(type_)));
    Doc::Object(fields)
}

/// The row of a data point with its vector.
pub open spec fn is_point_row<T>(r: VectorRow<T>, p: DatapointRow, vector: Seq<T>) -> bool {
    &&& r.id@ == uuid_text(p.id)
    &&& r.vector@ == vector
    &&& r.payload@ == payload_of(Json::Object(p.properties), uuid_text(p.id), p.type_)
}

/// The rows of the data points at the given positions, each with its vector; as
/// many as there are both.
pub fn point_rows<T>(dps: &[Datapoint], group: &[usize], vectors: Vec<Vec<T>>) -> (r: Vec<
    VectorRow<T>,
>)
    requires
        forall|k: int| 0 <= k < group@.len() ==> #[trigger] group@[k] < dps@.len(),
    ensures
        r@.len() == (if group@.len() <= vectors@.len() {
            group@.len()
        } else {
            vectors@.len()
        }),
        forall|k: int|
            0 <= k < r@.len() ==> is_point_row(
                #[trigger] r@[k],
                dps@[group@[k] as int]@,
                vectors@[k]@,
            ),
{
    let ghost given = vectors@;
    let mut out: Vec<VectorRow<T>> = Vec::new();
    for vector in it: vectors
        invariant
            given == it.seq(),
            forall|k: int| 0 <= k < group@.len() ==> #[trigger] group@[k] < dps@.len(),
            out@.len() == (if group@.len() <= it.index() {
                group@.len() as int
            } else {
                it.index() as int
            }),
            forall|k: int|
                0 <= k < out@.len() ==> is_point_row(
                    #[trigger] out@[k],
                    dps@[group@[k] as int]@,
                    given[k]@,
                ),
    {
        let i: usize = out.len();
        if i < group.len() {
            let dp = &dps[group[i]];
            let id = dp.id.to_string();
            let payload = row_payload(dp.payload(), id.as_str(), dp.type_.as_str());
            out.push(VectorRow { id, vector, payload });
        }
    }
    out
}

} // verus!
