//! What the vector tables hold, and what a search in them gives back.

use vstd::prelude::*;

use crate::ingest::datapoints::DatapointRow;
use crate::json::{field_set_is_read, field_set_keeps_others, member, Json};
use crate::laws::remembering::under;
use crate::pattern::replace_char_of;
use crate::storage::vector::{
    are_hits, column_named, field_named, id_filter_of, payload_text, rows_before, vector_width,
    Found, VectorError, VectorHit, TABLE_DOCUMENT_CHUNK, TABLE_ENTITY, TABLE_ENTITY_TYPE,
    TABLE_TEXT_DOCUMENT, TABLE_TEXT_SUMMARY,
};
use crate::storage::vector_writer::{
    is_batch, is_canonical, is_point_row, payload_of, row_vectors, table_of, Batch, Column,
    DataType, Field, Schema, VectorRow,
};
use crate::text::opt_view;
use crate::uid::uuid_text;

verus! {

// ---------------------------------------------------------------------------
// Rows
// ---------------------------------------------------------------------------

/// The table of a point is called by its type and its index field. Those of
/// summaries and of entities are the ones that questions are answered from.
pub proof fn points_go_to_their_table(p: DatapointRow, field: Seq<char>)
    requires
        p.index_fields == seq![field],
    ensures
        table_of(p) == p.type_ + "_"@ + field,
        p.type_ == "TextSummary"@ && field == "text"@ ==> table_of(p) == TABLE_TEXT_SUMMARY@,
        p.type_ == "Entity"@ && field == "name"@ ==> table_of(p) == TABLE_ENTITY@,
        p.type_ == "DocumentChunk"@ && field == "text"@ ==> table_of(p) == TABLE_DOCUMENT_CHUNK@,
        p.type_ == "TextDocument"@ && field == "name"@ ==> table_of(p) == TABLE_TEXT_DOCUMENT@,
        p.type_ == "EntityType"@ && field == "name"@ ==> table_of(p) == TABLE_ENTITY_TYPE@,
{
    reveal_strlit("_");
    reveal_strlit("text");
    reveal_strlit("name");
    reveal_strlit("TextSummary");
    reveal_strlit("Entity");
    reveal_strlit("DocumentChunk");
    reveal_strlit("TextDocument");
    reveal_strlit("EntityType");
    reveal_strlit("TextSummary_text");
    reveal_strlit("Entity_name");
    reveal_strlit("DocumentChunk_text");
    reveal_strlit("TextDocument_name");
    reveal_strlit("EntityType_name");
    assert("TextSummary"@ + "_"@ + "text"@ =~= "TextSummary_text"@);
    assert("Entity"@ + "_"@ + "name"@ =~= "Entity_name"@);
    assert("DocumentChunk"@ + "_"@ + "text"@ =~= "DocumentChunk_text"@);
    assert("TextDocument"@ + "_"@ + "name"@ =~= "TextDocument_name"@);
    assert("EntityType"@ + "_"@ + "name"@ =~= "EntityType_name"@);
}

/// The payload of a row holds the identifier, the type and, under every other
/// key, what the properties hold there.
pub proof fn payload_holds_properties(
    fields: Seq<(Seq<char>, Json)>,
    id: Seq<char>,
    type_: Seq<char>,
    key: Seq<char>,
)
    requires
        key != "id"@,
        key != "type"@,
    ensures
        member(payload_of(Json::Object(fields), id, type_), "id"@) == Some(Json::Text(id)),
        member(payload_of(Json::Object(fields), id, type_), "type"@) == Some(Json::Text(type_)),
        member(payload_of(Json::Object(fields), id, type_), key) == under(fields, key),
{
    reveal_strlit("id");
    reveal_strlit("type");
    assert("id"@.len() != "type"@.len());
    let named = crate::json::with_field(fields, "id"@, Json::Text(id));
    field_set_is_read(fields, "id"@, Json::Text(id));
    field_set_is_read(named, "type"@, Json::Text(type_));
    field_set_keeps_others(named, "type"@, Json::Text(type_), "id"@);
    field_set_keeps_others(fields, "id"@, Json::Text(id), key);
    field_set_keeps_others(named, "type"@, Json::Text(type_), key);
}

/// The row of a point holds its identifier, its vector and the text that it was
/// given under any key.
pub proof fn row_holds_its_point<T>(
    r: VectorRow<T>,
    p: DatapointRow,
    vector: Seq<T>,
    key: Seq<char>,
)
    requires
        is_point_row(r, p, vector),
        key != "id"@,
        key != "type"@,
    ensures
        r.id@ == uuid_text(p.id),
        r.vector@ == vector,
        member(r.payload@, "type"@) == Some(Json::Text(p.type_)),
        member(r.payload@, key) == under(p.properties, key),
{
    payload_holds_properties(p.properties, uuid_text(p.id), p.type_, key);
}

proof fn vectors_stand_in_row<T>(rows: Seq<VectorRow<T>>, dims: nat, i: int)
    requires
        forall|k: int| 0 <= k < rows.len() ==> (#[trigger] rows[k]).vector@.len() == dims,
        0 <= i < rows.len(),
    ensures
        row_vectors(rows).len() == rows.len() * dims,
        0 <= i * dims <= (i + 1) * dims <= row_vectors(rows).len(),
        row_vectors(rows).subrange(i * dims, (i + 1) * dims) == rows[i].vector@,
    decreases rows.len(),
{
    let head = rows.drop_last();
    assert(forall|k: int| 0 <= k < head.len() ==> #[trigger] head[k] == rows[k]);
    let before = row_vectors(head);
    vectors_have_length(head, dims);
    assert(rows[rows.len() - 1].vector@.len() == dims);
    assert(rows.len() * dims == (rows.len() - 1) * dims + dims) by (nonlinear_arith)
        requires
            rows.len() >= 1,
    ;
    assert(0 <= i * dims <= (i + 1) * dims) by (nonlinear_arith)
        requires
            0 <= i,
    ;
    assert((i + 1) * dims <= rows.len() * dims) by (nonlinear_arith)
        requires
            i + 1 <= rows.len(),
    ;
    if i < head.len() {
        vectors_stand_in_row(head, dims, i);
        assert(row_vectors(rows).subrange(i * dims, (i + 1) * dims) =~= before.subrange(
            i * dims,
            (i + 1) * dims,
        ));
    } else {
        assert(i * dims == before.len());
        assert(row_vectors(rows).subrange(i * dims, (i + 1) * dims) =~= rows[i].vector@) by {
            assert((i + 1) * dims == i * dims + dims) by (nonlinear_arith);
        }
    }
}

proof fn vectors_have_length<T>(rows: Seq<VectorRow<T>>, dims: nat)
    requires
        forall|k: int| 0 <= k < rows.len() ==> (#[trigger] rows[k]).vector@.len() == dims,
    ensures
        row_vectors(rows).len() == rows.len() * dims,
    decreases rows.len(),
{
    if rows.len() > 0 {
        let head = rows.drop_last();
        assert(forall|k: int| 0 <= k < head.len() ==> #[trigger] head[k] == rows[k]);
        vectors_have_length(head, dims);
        assert(rows[rows.len() - 1].vector@.len() == dims);
        assert(rows.len() * dims == (rows.len() - 1) * dims + dims) by (nonlinear_arith)
            requires
                rows.len() >= 1,
        ;
    } else {
        assert(0 * dims == 0);
    }
}

/// Rows laid out by column are the rows: each keeps its identifier, and its vector
/// stands behind those before it.
pub proof fn batch_keeps_rows<T>(b: Batch<T>, s: Schema, rows: Seq<VectorRow<T>>, i: int)
    requires
        is_batch(b, s, rows),
        0 <= i < rows.len(),
    ensures
        b.ids@.len() == rows.len(),
        b.ids@[i]@ == rows[i].id@,
        rows[i].vector@.len() == b.dims,
        b.vectors@.len() == rows.len() * b.dims,
        b.vectors@.subrange(i * b.dims, (i + 1) * b.dims) == rows[i].vector@,
{
    vectors_stand_in_row(rows, b.dims as nat, i);
    assert(crate::storage::vector_writer::row_ids(rows).len() == rows.len());
    assert(crate::text::views(b.ids@).len() == b.ids@.len());
    assert(crate::storage::vector_writer::row_ids(rows)[i] == rows[i].id@);
    assert(crate::text::views(b.ids@)[i] == b.ids@[i]@);
}

/// A column of texts holds for each row the text under its name in the payload, and
/// nothing where there is no text.
pub proof fn batch_keeps_texts<T>(
    b: Batch<T>,
    s: Schema,
    rows: Seq<VectorRow<T>>,
    columns: Vec<Field>,
    c: int,
    i: int,
)
    requires
        is_batch(b, s, rows),
        s.fields@[2].data_type == DataType::Struct(columns),
        0 <= c < columns@.len(),
        columns@[c].data_type == DataType::Utf8 || columns@[c].data_type == DataType::LargeUtf8,
        0 <= i < rows.len(),
    ensures
        b.payload@[c] matches Column::Texts(list) && list@.len() == rows.len() && opt_view(
            list@[i],
        ) == (match member(rows[i].payload@, columns@[c].name@) {
            Some(Json::Text(t)) => Some(t),
            _ => None,
        }),
{
    let values = crate::storage::vector_writer::payload_cells(rows, columns@[c].name@);
    let list = b.payload@[c]->Texts_0@;
    let told = values.map_values(
        |v: Option<Json>| crate::storage::vector_writer::text_cell(v),
    );
    assert(crate::storage::vector_writer::opt_views(list) == told);
    assert(crate::storage::vector_writer::opt_views(list).len() == list.len());
    assert(crate::storage::vector_writer::opt_views(list)[i] == opt_view(list[i]));
    assert(told[i] == crate::storage::vector_writer::text_cell(values[i]));
}

/// So do columns of integers, of truth values and of numbers.
pub proof fn batch_keeps_numbers<T>(
    b: Batch<T>,
    s: Schema,
    rows: Seq<VectorRow<T>>,
    columns: Vec<Field>,
    c: int,
    i: int,
)
    requires
        is_batch(b, s, rows),
        s.fields@[2].data_type == DataType::Struct(columns),
        0 <= c < columns@.len(),
        0 <= i < rows.len(),
    ensures
        columns@[c].data_type == DataType::Int64 ==> (b.payload@[c] matches Column::Ints(list)
            && list@.len() == rows.len() && match member(
            rows[i].payload@,
            columns@[c].name@,
        ) {
            Some(Json::Int(n)) => if n <= i64::MAX {
                list@[i] is Some && list@[i]->0 == n
            } else {
                list@[i] is None
            },
            _ => list@[i] is None,
        }),
        columns@[c].data_type == DataType::Boolean ==> (b.payload@[c] matches Column::Bools(list)
            && list@.len() == rows.len() && list@[i] == (match member(
            rows[i].payload@,
            columns@[c].name@,
        ) {
            Some(Json::Bool(x)) => Some(x),
            _ => None,
        })),
        columns@[c].data_type == DataType::Float64 ==> (b.payload@[c] matches Column::Numbers(list)
            && list@.len() == rows.len() && match member(rows[i].payload@, columns@[c].name@) {
            Some(Json::Int(n)) => list@[i] is Some && list@[i]->0@ == Json::Int(n),
            Some(Json::Float(n)) => list@[i] is Some && list@[i]->0@ == Json::Float(n),
            _ => list@[i] is None,
        }),
{
    let values = crate::storage::vector_writer::payload_cells(rows, columns@[c].name@);
    assert(values[i] == member(rows[i].payload@, columns@[c].name@));
    if columns@[c].data_type == DataType::Int64 {
        let list = b.payload@[c]->Ints_0@;
        assert((match list[i] {
            Some(n) => Some(n as int),
            None => None,
        }) == crate::storage::vector_writer::int_cell(values[i]));
    }
    if columns@[c].data_type == DataType::Float64 {
        let list = b.payload@[c]->Numbers_0@;
        assert((match list[i] {
            Some(n) => Some(n@),
            None => None,
        }) == crate::storage::vector_writer::number_cell(values[i]));
    }
}

/// A table that is made anew has a column for all that a search reads: the text,
/// the type, and the document that it is from.
pub proof fn new_table_can_be_searched(s: Schema, dims: nat)
    requires
        is_canonical(s, dims),
    ensures
        s.fields@.len() == 3,
        s.fields@[0].name@ == "id"@,
        s.fields@[0].data_type == DataType::Utf8,
        vector_width(s) == Ok::<nat, VectorError>(dims),
        s.fields@[2].name@ == "payload"@,
        s.fields@[2].data_type matches DataType::Struct(columns) && {
            &&& exists|c: int|
                0 <= c < columns@.len() && (#[trigger] columns@[c]).name@ == "text"@
                    && columns@[c].data_type == DataType::Utf8
            &&& exists|c: int|
                0 <= c < columns@.len() && (#[trigger] columns@[c]).name@ == "type"@
                    && columns@[c].data_type == DataType::Utf8
            &&& exists|c: int|
                0 <= c < columns@.len() && (#[trigger] columns@[c]).name@ == "document_id"@
                    && columns@[c].data_type == DataType::Utf8
            &&& exists|c: int|
                0 <= c < columns@.len() && (#[trigger] columns@[c]).name@ == "document_name"@
                    && columns@[c].data_type == DataType::Utf8
            &&& exists|c: int|
                0 <= c < columns@.len() && (#[trigger] columns@[c]).name@ == "source_chunk_id"@
                    && columns@[c].data_type == DataType::Utf8
            &&& exists|c: int|
                0 <= c < columns@.len() && (#[trigger] columns@[c]).name@ == "created_at"@
                    && columns@[c].data_type == DataType::Int64
            &&& exists|c: int|
                0 <= c < columns@.len() && (#[trigger] columns@[c]).name@ == "chunk_index"@
                    && columns@[c].data_type == DataType::Int64
            &&& exists|c: int|
                0 <= c < columns@.len() && (#[trigger] columns@[c]).name@
                    == "source_content_hash"@ && columns@[c].data_type == DataType::Utf8
        },
{
    reveal_strlit("id");
    reveal_strlit("vector");
    reveal_strlit("payload");
    assert("id"@.len() != "vector"@.len());
    assert("payload"@.len() != "vector"@.len());
    field_named_first(s.fields@, 1, "vector"@);
    if let DataType::Struct(columns) = s.fields@[2].data_type {
        assert(columns@[17].name@ == "text"@);
        assert(columns@[8].name@ == "type"@);
        assert(columns@[18].name@ == "document_id"@);
        assert(columns@[19].name@ == "document_name"@);
        assert(columns@[21].name@ == "source_chunk_id"@);
        assert(columns@[1].name@ == "created_at"@);
        assert(columns@[20].name@ == "chunk_index"@);
        assert(columns@[14].name@ == "source_content_hash"@);
    }
}

proof fn field_named_first(fields: Seq<Field>, i: int, name: Seq<char>)
    requires
        0 <= i < fields.len(),
        fields[i].name@ == name,
        forall|j: int| 0 <= j < i ==> (#[trigger] fields[j]).name@ != name,
    ensures
        field_named(fields, name) == Some(i),
    decreases fields.len(),
{
    let head = fields.drop_last();
    assert(forall|j: int| 0 <= j < head.len() ==> #[trigger] head[j] == fields[j]);
    if i < head.len() {
        field_named_first(head, i, name);
    } else {
        no_field_named(head, name);
    }
}

proof fn no_field_named(fields: Seq<Field>, name: Seq<char>)
    requires
        forall|j: int| 0 <= j < fields.len() ==> (#[trigger] fields[j]).name@ != name,
    ensures
        field_named(fields, name) is None,
    decreases fields.len(),
{
    if fields.len() > 0 {
        let head = fields.drop_last();
        assert forall|j: int| 0 <= j < head.len() implies (#[trigger] head[j]).name@ != name by {
            assert(head[j] == fields[j]);
        }
        assert(fields[fields.len() - 1].name@ != name);
        no_field_named(head, name);
    }
}

/// The width of a table is that of the first column called `vector`, where it holds
/// vectors of one width.
pub proof fn width_is_that_of_the_vectors(s: Schema, i: int)
    requires
        0 <= i < s.fields@.len(),
        s.fields@[i].name@ == "vector"@,
        forall|j: int| 0 <= j < i ==> (#[trigger] s.fields@[j]).name@ != "vector"@,
    ensures
        match s.fields@[i].data_type {
            DataType::FixedSizeList(_, n) => vector_width(s) == Ok::<nat, VectorError>(n as nat),
            _ => vector_width(s) == Err::<nat, VectorError>(VectorError::NotFixedSize),
        },
{
    field_named_first(s.fields@, i, "vector"@);
}

// ---------------------------------------------------------------------------
// Hits
// ---------------------------------------------------------------------------

proof fn column_named_first(
    columns: Seq<(String, Vec<Option<String>>)>,
    i: int,
    name: Seq<char>,
)
    requires
        0 <= i < columns.len(),
        columns[i].0@ == name,
        forall|j: int| 0 <= j < i ==> (#[trigger] columns[j]).0@ != name,
    ensures
        column_named(columns, name) == Some(i),
    decreases columns.len(),
{
    let head = columns.drop_last();
    assert(forall|j: int| 0 <= j < head.len() ==> #[trigger] head[j] == columns[j]);
    if i < head.len() {
        column_named_first(head, i, name);
    } else {
        no_column_named(head, name);
    }
}

proof fn no_column_named(columns: Seq<(String, Vec<Option<String>>)>, name: Seq<char>)
    requires
        forall|j: int| 0 <= j < columns.len() ==> (#[trigger] columns[j]).0@ != name,
    ensures
        column_named(columns, name) is None,
    decreases columns.len(),
{
    if columns.len() > 0 {
        let head = columns.drop_last();
        assert forall|j: int| 0 <= j < head.len() implies (#[trigger] head[j]).0@ != name by {
            assert(head[j] == columns[j]);
        }
        assert(columns[columns.len() - 1].0@ != name);
        no_column_named(head, name);
    }
}

/// The payload of a batch holds `texts` in its first column called `name`.
pub open spec fn has_column<T>(f: Found<T>, name: Seq<char>, texts: Seq<Option<String>>) -> bool {
    f.payload matches Some(columns) && exists|c: int|
        0 <= c < columns@.len() && (#[trigger] columns@[c]).0@ == name && columns@[c].1@ == texts
            && forall|j: int| 0 <= j < c ==> (#[trigger] columns@[j]).0@ != name
}

proof fn column_is_read<T>(f: Found<T>, name: Seq<char>, texts: Seq<Option<String>>, row: int)
    requires
        has_column(f, name, texts),
    ensures
        payload_text(f, name, row) == opt_view(texts[row]),
{
    let columns = f.payload->0@;
    let c = choose|c: int|
        0 <= c < columns.len() && (#[trigger] columns[c]).0@ == name && columns[c].1@ == texts
            && forall|j: int| 0 <= j < c ==> (#[trigger] columns[j]).0@ != name;
    column_named_first(columns, c, name);
}

/// A hit holds what its row holds: the identifier, the distance, and from the
/// payload the text, the type and the document. Hits are in the order of the rows,
/// batch behind batch.
pub proof fn hits_hold_their_rows<T>(
    hits: Seq<VectorHit<T>>,
    batches: Seq<Found<T>>,
    missing: T,
    b: int,
    row: int,
    name: Seq<char>,
    texts: Seq<Option<String>>,
)
    requires
        are_hits(hits, batches, missing),
        0 <= b < batches.len(),
        0 <= row < batches[b].rows,
        has_column(batches[b], name, texts),
    ensures
        ({
            let h = hits[rows_before(batches.take(b)) + row];
            &&& batches[b].ids is Some && h.id@ == batches[b].ids->0@[row]@
            &&& (batches[b].distances is Some ==> h.distance == batches[b].distances->0@[row])
            &&& (batches[b].distances is None ==> h.distance == missing)
            &&& (name == "text"@ ==> opt_view(h.text) == opt_view(texts[row]))
            &&& (name == "type"@ ==> opt_view(h.node_type) == opt_view(texts[row]))
            &&& (name == "document_id"@ ==> opt_view(h.document_id) == opt_view(texts[row]))
            &&& (name == "document_name"@ ==> opt_view(h.document_name) == opt_view(texts[row]))
        }),
{
    column_is_read(batches[b], name, texts, row);
    let h = hits[rows_before(batches.take(b)) + row];
    assert(crate::storage::vector::is_hit(h, batches[b], row, missing));
}

/// There are as many hits as rows.
pub proof fn hits_are_as_many_as_rows<T>(batches: Seq<Found<T>>, more: Found<T>)
    ensures
        rows_before(Seq::<Found<T>>::empty()) == 0,
        rows_before(batches.push(more)) == rows_before(batches) + more.rows,
{
    assert(batches.push(more).drop_last() =~= batches);
}

// ---------------------------------------------------------------------------
// Conditions
// ---------------------------------------------------------------------------

proof fn quotes_double(s: Seq<char>, i: int)
    requires
        0 <= i < s.len(),
    ensures
        replace_char_of(s.take(i + 1), '\'', "''"@) == replace_char_of(s.take(i), '\'', "''"@) + (
        if s[i] == '\'' {
            "''"@
        } else {
            seq![s[i]]
        }),
{
    assert(s.take(i + 1).drop_last() =~= s.take(i));
    assert(s.take(i + 1).last() == s[i]);
}

proof fn plain_stays(s: Seq<char>)
    requires
        forall|i: int| 0 <= i < s.len() ==> #[trigger] s[i] != '\'',
    ensures
        replace_char_of(s, '\'', "''"@) == s,
    decreases s.len(),
{
    if s.len() > 0 {
        let head = s.drop_last();
        assert forall|i: int| 0 <= i < head.len() implies #[trigger] head[i] != '\'' by {
            assert(head[i] == s[i]);
        }
        plain_stays(head);
        assert(s[s.len() - 1] != '\'');
        assert(head + seq![s.last()] =~= s);
    } else {
        assert(replace_char_of(s, '\'', "''"@) =~= s);
    }
}

/// The condition for a row quotes its identifier; every quote in that is doubled
/// and everything else stands as it is.
pub proof fn condition_quotes_its_identifier(id: Seq<char>)
    ensures
        (forall|i: int| 0 <= i < id.len() ==> #[trigger] id[i] != '\'') ==> id_filter_of(id)
            == "id = '"@ + id + "'"@,
        forall|i: int|
            0 <= i < id.len() && #[trigger] id[i] == '\'' ==> replace_char_of(
                id.take(i + 1),
                '\'',
                "''"@,
            ) == replace_char_of(id.take(i), '\'', "''"@) + "''"@,
        id_filter_of(id) == "id = '"@ + replace_char_of(id, '\'', "''"@) + "'"@,
{
    if forall|i: int| 0 <= i < id.len() ==> #[trigger] id[i] != '\'' {
        plain_stays(id);
    }
    assert forall|i: int| 0 <= i < id.len() && #[trigger] id[i] == '\'' implies replace_char_of(
        id.take(i + 1),
        '\'',
        "''"@,
    ) == replace_char_of(id.take(i), '\'', "''"@) + "''"@ by {
        quotes_double(id, i);
    }
}

// ---------------------------------------------------------------------------
// Lists
// ---------------------------------------------------------------------------

/// A column of lists says for each row whether anything stands there, and holds the
/// items of its list between two neighbouring offsets.
pub proof fn batch_keeps_lists<T>(
    b: Batch<T>,
    s: Schema,
    rows: Seq<VectorRow<T>>,
    columns: Vec<Field>,
    c: int,
    i: int,
    items: Seq<Json>,
)
    requires
        is_batch(b, s, rows),
        s.fields@[2].data_type == DataType::Struct(columns),
        0 <= c < columns@.len(),
        columns@[c].data_type is List,
        0 <= i < rows.len(),
        member(rows[i].payload@, columns@[c].name@) == Some(Json::List(items)),
    ensures
        b.payload@[c] matches Column::Lists { present, offsets, items: cells } && {
            &&& present@.len() == rows.len()
            &&& present@[i]
            &&& offsets@.len() == rows.len() + 1
            &&& offsets@[i + 1] - offsets@[i] == items.len()
            &&& forall|k: int|
                0 <= k < items.len() ==> opt_view(cells@[offsets@[i] + k]) == (
                match #[trigger] items[k] {
                    Json::Text(t) => Some(t),
                    _ => None,
                })
        },
{
    let values = crate::storage::vector_writer::payload_cells(rows, columns@[c].name@);
    assert(values[i] == Some(Json::List(items)));
    if let Column::Lists { present, offsets, items: cells } = b.payload@[c] {
        let seen = crate::storage::vector_writer::opt_views(cells@);
        let told = crate::storage::vector_writer::list_cell(values[i]);
        assert(offsets@[i] <= offsets@[i + 1]);
        let part = seen.subrange(offsets@[i] as int, offsets@[i + 1] as int);
        assert(part == told);
        assert(told.len() == items.len());
        assert forall|k: int| 0 <= k < items.len() implies opt_view(cells@[offsets@[i] + k]) == (
        match #[trigger] items[k] {
            Json::Text(t) => Some(t),
            _ => None,
        }) by {
            assert(told[k] == crate::storage::vector_writer::text_cell(Some(items[k])));
            assert(part[k] == seen[offsets@[i] + k]);
            assert(seen[offsets@[i] + k] == opt_view(cells@[offsets@[i] + k]));
        }
        let marks = values.map_values(
            |v: Option<Json>| crate::storage::vector_writer::filled(v),
        );
        assert(present@ == marks);
        assert(marks[i] == crate::storage::vector_writer::filled(values[i]));
    }
}

/// It also has a column for all that a point says of its origin, of the type that
/// holds it.
pub proof fn new_table_holds_origins(s: Schema, dims: nat)
    requires
        is_canonical(s, dims),
    ensures
        s.fields@[2].data_type matches DataType::Struct(columns) && {
            &&& exists|c: int|
                0 <= c < columns@.len() && (#[trigger] columns@[c]).name@ == "updated_at"@
                    && columns@[c].data_type == DataType::Int64
            &&& exists|c: int|
                0 <= c < columns@.len() && (#[trigger] columns@[c]).name@ == "version"@
                    && columns@[c].data_type == DataType::Int64
            &&& exists|c: int|
                0 <= c < columns@.len() && (#[trigger] columns@[c]).name@ == "topological_rank"@
                    && columns@[c].data_type == DataType::Int64
            &&& exists|c: int|
                0 <= c < columns@.len() && (#[trigger] columns@[c]).name@ == "ontology_valid"@
                    && columns@[c].data_type == DataType::Boolean
            &&& exists|c: int|
                0 <= c < columns@.len() && (#[trigger] columns@[c]).name@ == "source_pipeline"@
                    && columns@[c].data_type == DataType::Utf8
            &&& exists|c: int|
                0 <= c < columns@.len() && (#[trigger] columns@[c]).name@ == "source_task"@
                    && columns@[c].data_type == DataType::Utf8
            &&& exists|c: int|
                0 <= c < columns@.len() && (#[trigger] columns@[c]).name@ == "source_node_set"@
                    && columns@[c].data_type == DataType::Utf8
            &&& exists|c: int|
                0 <= c < columns@.len() && (#[trigger] columns@[c]).name@ == "feedback_weight"@
                    && columns@[c].data_type == DataType::Float64
            &&& exists|c: int|
                0 <= c < columns@.len() && (#[trigger] columns@[c]).name@ == "importance_weight"@
                    && columns@[c].data_type == DataType::Float64
            &&& exists|c: int|
                0 <= c < columns@.len() && (#[trigger] columns@[c]).name@ == "id"@
                    && columns@[c].data_type == DataType::Utf8
            &&& exists|c: int|
                0 <= c < columns@.len() && (#[trigger] columns@[c]).name@ == "belongs_to_set"@
                    && columns@[c].data_type is List
        },
{
    if let DataType::Struct(columns) = s.fields@[2].data_type {
        assert(columns@[2].name@ == "updated_at"@);
        assert(columns@[5].name@ == "version"@);
        assert(columns@[6].name@ == "topological_rank"@);
        assert(columns@[3].name@ == "ontology_valid"@);
        assert(columns@[10].name@ == "source_pipeline"@);
        assert(columns@[11].name@ == "source_task"@);
        assert(columns@[12].name@ == "source_node_set"@);
        assert(columns@[15].name@ == "feedback_weight"@);
        assert(columns@[16].name@ == "importance_weight"@);
        assert(columns@[0].name@ == "id"@);
        assert(columns@[9].name@ == "belongs_to_set"@);
    }
}

} // verus!
