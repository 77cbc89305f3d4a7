//! Record batches, and their values as bytes to hash.
use vstd::prelude::*;

use crate::bytes::push_le;
use crate::error::Error;
use crate::text::parse_i32;

verus! {

/// The values of a column. Floats are held as their bit patterns.
#[derive(Debug)]
pub enum ColumnData {
    Int8(Vec<i8>),
    Int16(Vec<i16>),
    Int32(Vec<i32>),
    Int64(Vec<i64>),
    UInt8(Vec<u8>),
    UInt16(Vec<u16>),
    UInt32(Vec<u32>),
    UInt64(Vec<u64>),
    Float32(Vec<u32>),
    Float64(Vec<u64>),
    Boolean(Vec<bool>),
    Utf8(Vec<String>),
    LargeUtf8(Vec<String>),
    Binary(Vec<Vec<u8>>),
    LargeBinary(Vec<Vec<u8>>),
    /// Values of a type that is not hashed, with the name of the type.
    Unsupported(String),
}

impl ColumnData {
    /// There are values for `n` rows.
    pub open spec fn covers(&self, n: nat) -> bool {
        match *self {
            ColumnData::Int8(v) => v@.len() == n,
            ColumnData::Int16(v) => v@.len() == n,
            ColumnData::Int32(v) => v@.len() == n,
            ColumnData::Int64(v) => v@.len() == n,
            ColumnData::UInt8(v) => v@.len() == n,
            ColumnData::UInt16(v) => v@.len() == n,
            ColumnData::UInt32(v) => v@.len() == n,
            ColumnData::UInt64(v) => v@.len() == n,
            ColumnData::Float32(v) => v@.len() == n,
            ColumnData::Float64(v) => v@.len() == n,
            ColumnData::Boolean(v) => v@.len() == n,
            ColumnData::Utf8(v) => v@.len() == n,
            ColumnData::LargeUtf8(v) => v@.len() == n,
            ColumnData::Binary(v) => v@.len() == n,
            ColumnData::LargeBinary(v) => v@.len() == n,
            ColumnData::Unsupported(_) => true,
        }
    }
}

/// A column of a record batch.
#[derive(Debug)]
pub struct Column {
    /// The `field_id` entry of the metadata of the column's field.
    pub field_id: Option<String>,
    /// Which rows hold no value.
    pub nulls: Vec<bool>,
    pub data: ColumnData,
}

impl Column {
    /// There is a value, or none, for every row.
    pub open spec fn wf(&self) -> bool {
        self.data.covers(self.nulls@.len())
    }
}

/// Columns of equal length.
#[derive(Debug)]
pub struct RecordBatch {
    pub columns: Vec<Column>,
    pub num_rows: usize,
}

impl RecordBatch {
    /// Every column has a value, or none, for every row.
    pub open spec fn wf(&self) -> bool {
        forall|c: int|
            0 <= c < self.columns@.len() ==> (#[trigger] self.columns@[c]).wf()
                && self.columns@[c].nulls@.len() == self.num_rows
    }

    pub fn num_rows(&self) -> (n: usize)
        ensures
            n == self.num_rows,
    {
        self.num_rows
    }

    pub fn num_columns(&self) -> (n: usize)
        ensures
            n == self.columns@.len(),
    {
        self.columns.len()
    }
}

/// The column says that it has that field id.
pub open spec fn names_field(column: Column, field_id: i32) -> bool {
    match column.field_id {
        Some(text) => crate::text::parsed_i32(text@) == Some(field_id),
        None => false,
    }
}

/// The first column from `from` on that says that it has that field id.
pub open spec fn first_named(columns: Seq<Column>, field_id: i32, from: nat) -> Option<nat>
    decreases columns.len() - from,
{
    if from >= columns.len() {
        None
    } else if names_field(columns[from as int], field_id) {
        Some(from)
    } else {
        first_named(columns, field_id, from + 1)
    }
}

/// The column of a field id: the first one that says so, else the one at that place.
pub open spec fn found_column(columns: Seq<Column>, field_id: i32) -> Result<nat, Error> {
    match first_named(columns, field_id, 0) {
        Some(c) => Ok(c),
        None => if 0 <= field_id < columns.len() {
            Ok(field_id as nat)
        } else {
            Err(Error::FieldNotFound { field_id, num_columns: columns.len() as usize })
        },
    }
}

/// Finds the column of a field id.
///
/// Field ids stand in the metadata of the fields. Where none of them is the wanted one, it is
/// taken as the place of the column.
pub fn find_column_by_field_id(batch: &RecordBatch, field_id: i32) -> (r: Result<usize, Error>)
    ensures
        match r {
            Ok(c) => found_column(batch.columns@, field_id) == Ok::<nat, Error>(c as nat) && c
                < batch.columns@.len(),
            Err(e) => found_column(batch.columns@, field_id) == Err::<nat, Error>(e),
        },
{
    let n: usize = batch.columns.len();
    let mut i: usize = 0;
    while i < n
        invariant
            i <= n,
            n == batch.columns@.len(),
            first_named(batch.columns@, field_id, 0) == first_named(
                batch.columns@,
                field_id,
                i as nat,
            ),
        decreases n - i,
    {
        if let Some(text) = &batch.columns[i].field_id {
            if let Some(id) = parse_i32(text.as_str()) {
                if id == field_id {
                    return Ok(i);
                }
            }
        }
        i = i + 1;
    }
    if field_id >= 0 && (field_id as usize) < n {
        Ok(field_id as usize)
    } else {
        Err(Error::FieldNotFound { field_id, num_columns: n })
    }
}

/// A signed number as the unsigned one with the same bytes, out of `range` numbers.
pub open spec fn wrapped(x: int, range: nat) -> nat {
    if x < 0 {
        (x + range) as nat
    } else {
        x as nat
    }
}

/// A length of `width` bytes, then the bytes.
pub open spec fn with_length(bytes: Seq<u8>, width: nat) -> Seq<u8> {
    crate::bytes::le_bytes(bytes.len(), width) + bytes
}

/// The bytes of a value that is there.
pub open spec fn value_bytes(data: ColumnData, row: int) -> Result<Seq<u8>, Error> {
    match data {
        ColumnData::Int8(v) => Ok(crate::bytes::le_bytes(wrapped(v@[row] as int, 0x100), 1)),
        ColumnData::Int16(v) => Ok(crate::bytes::le_bytes(wrapped(v@[row] as int, 0x1_0000), 2)),
        ColumnData::Int32(v) => Ok(
            crate::bytes::le_bytes(wrapped(v@[row] as int, 0x1_0000_0000), 4),
        ),
        ColumnData::Int64(v) => Ok(
            crate::bytes::le_bytes(wrapped(v@[row] as int, 0x1_0000_0000_0000_0000), 8),
        ),
        ColumnData::UInt8(v) => Ok(crate::bytes::le_bytes(v@[row] as nat, 1)),
        ColumnData::UInt16(v) => Ok(crate::bytes::le_bytes(v@[row] as nat, 2)),
        ColumnData::UInt32(v) => Ok(crate::bytes::le_bytes(v@[row] as nat, 4)),
        ColumnData::UInt64(v) => Ok(crate::bytes::le_bytes(v@[row] as nat, 8)),
        ColumnData::Float32(v) => Ok(crate::bytes::le_bytes(v@[row] as nat, 4)),
        ColumnData::Float64(v) => Ok(crate::bytes::le_bytes(v@[row] as nat, 8)),
        ColumnData::Boolean(v) => Ok(
            seq![
                if v@[row] {
                    1u8
                } else {
                    0u8
                },
            ],
        ),
        ColumnData::Utf8(v) => Ok(with_length(vstd::utf8::encode_utf8(v@[row]@), 4)),
        ColumnData::LargeUtf8(v) => Ok(with_length(vstd::utf8::encode_utf8(v@[row]@), 8)),
        ColumnData::Binary(v) => Ok(with_length(v@[row]@, 4)),
        ColumnData::LargeBinary(v) => Ok(with_length(v@[row]@, 8)),
        ColumnData::Unsupported(name) => Err(Error::UnsupportedArrayType(name)),
    }
}

/// The bytes of a cell: 0 where there is no value, else 1 and the bytes of the value.
pub open spec fn cell_bytes(column: Column, row: int) -> Result<Seq<u8>, Error> {
    if column.nulls@[row] {
        Ok(seq![0u8])
    } else {
        match value_bytes(column.data, row) {
            Ok(bytes) => Ok(seq![1u8] + bytes),
            Err(e) => Err(e),
        }
    }
}

/// Appends a signed number.
fn push_signed(buffer: &mut Vec<u8>, x: i64, range: u128, width: usize)
    requires
        range <= 0x1_0000_0000_0000_0000,
        -range <= x,
    ensures
        final(buffer)@ == old(buffer)@ + crate::bytes::le_bytes(
            wrapped(x as int, range as nat),
            width as nat,
        ),
{
    let wide: i128 = x as i128;
    let unsigned: u64 = if wide < 0 {
        (wide + range as i128) as u64
    } else {
        wide as u64
    };
    push_le(buffer, unsigned, width);
}

/// Appends a length and the bytes.
fn push_with_length(buffer: &mut Vec<u8>, bytes: &[u8], width: usize)
    ensures
        final(buffer)@ == old(buffer)@ + with_length(bytes@, width as nat),
{
    let ghost before = buffer@;
    let n: usize = bytes.len();
    push_le(buffer, n as u64, width);
    buffer.extend_from_slice(bytes);
    assert(buffer@ =~= before + with_length(bytes@, width as nat));
}

/// Appends the bytes of a value that is there.
fn push_value(buffer: &mut Vec<u8>, data: &ColumnData, row_idx: usize, Ghost(n): Ghost<nat>) -> (r:
    Result<(), Error>)
    requires
        row_idx < n,
        data.covers(n),
    ensures
        match value_bytes(*data, row_idx as int) {
            Ok(bytes) => r is Ok && final(buffer)@ == old(buffer)@ + bytes,
            Err(e) => r == Err::<(), Error>(e) && final(buffer)@ == old(buffer)@,
        },
{
    let ghost before = buffer@;
    match data {
        ColumnData::Int8(v) => push_signed(buffer, v[row_idx] as i64, 0x100, 1),
        ColumnData::Int16(v) => push_signed(buffer, v[row_idx] as i64, 0x1_0000, 2),
        ColumnData::Int32(v) => push_signed(buffer, v[row_idx] as i64, 0x1_0000_0000, 4),
        ColumnData::Int64(v) => push_signed(buffer, v[row_idx], 0x1_0000_0000_0000_0000, 8),
        ColumnData::UInt8(v) => push_le(buffer, v[row_idx] as u64, 1),
        ColumnData::UInt16(v) => push_le(buffer, v[row_idx] as u64, 2),
        ColumnData::UInt32(v) => push_le(buffer, v[row_idx] as u64, 4),
        ColumnData::UInt64(v) => push_le(buffer, v[row_idx], 8),
        ColumnData::Float32(v) => push_le(buffer, v[row_idx] as u64, 4),
        ColumnData::Float64(v) => push_le(buffer, v[row_idx], 8),
        ColumnData::Boolean(v) => {
            let byte: u8 = if v[row_idx] {
                1
            } else {
                0
            };
            buffer.push(byte);
            assert(buffer@ =~= before + seq![byte]);
        },
        ColumnData::Utf8(v) => push_with_length(buffer, v[row_idx].as_str().as_bytes(), 4),
        ColumnData::LargeUtf8(v) => push_with_length(buffer, v[row_idx].as_str().as_bytes(), 8),
        ColumnData::Binary(v) => push_with_length(buffer, v[row_idx].as_slice(), 4),
        ColumnData::LargeBinary(v) => push_with_length(buffer, v[row_idx].as_slice(), 8),
        ColumnData::Unsupported(name) => {
            return Err(Error::UnsupportedArrayType(name.clone()));
        },
    }
    Ok(())
}

/// Appends the value of a column at a row to a byte buffer.
///
/// Where the type of a value is not supported, the buffer keeps the mark of a value.
pub fn append_array_value(buffer: &mut Vec<u8>, array: &Column, row_idx: usize) -> (r: Result<
    (),
    Error,
>)
    requires
        array.wf(),
        row_idx < array.nulls@.len(),
    ensures
        match cell_bytes(*array, row_idx as int) {
            Ok(bytes) => r is Ok && final(buffer)@ == old(buffer)@ + bytes,
            Err(e) => r == Err::<(), Error>(e) && final(buffer)@ == old(buffer)@.push(1),
        },
{
    let ghost before = buffer@;
    if array.nulls[row_idx] {
        buffer.push(0);
        assert(buffer@ =~= before + seq![0u8]);
        return Ok(());
    }
    buffer.push(1);
    let r = push_value(buffer, &array.data, row_idx, Ghost(array.nulls@.len()));
    proof {
        if let Ok(bytes) = value_bytes(array.data, row_idx as int) {
            assert(before.push(1) + bytes =~= before + (seq![1u8] + bytes));
        }
    }
    r
}

/// Both values are of one type that is hashed.
pub open spec fn same_hashed_type(a: ColumnData, b: ColumnData) -> bool {
    match (a, b) {
        (ColumnData::Int8(_), ColumnData::Int8(_)) => true,
        (ColumnData::Int16(_), ColumnData::Int16(_)) => true,
        (ColumnData::Int32(_), ColumnData::Int32(_)) => true,
        (ColumnData::Int64(_), ColumnData::Int64(_)) => true,
        (ColumnData::UInt8(_), ColumnData::UInt8(_)) => true,
        (ColumnData::UInt16(_), ColumnData::UInt16(_)) => true,
        (ColumnData::UInt32(_), ColumnData::UInt32(_)) => true,
        (ColumnData::UInt64(_), ColumnData::UInt64(_)) => true,
        (ColumnData::Float32(_), ColumnData::Float32(_)) => true,
        (ColumnData::Float64(_), ColumnData::Float64(_)) => true,
        (ColumnData::Boolean(_), ColumnData::Boolean(_)) => true,
        (ColumnData::Utf8(_), ColumnData::Utf8(_)) => true,
        (ColumnData::LargeUtf8(_), ColumnData::LargeUtf8(_)) => true,
        (ColumnData::Binary(_), ColumnData::Binary(_)) => true,
        (ColumnData::LargeBinary(_), ColumnData::LargeBinary(_)) => true,
        _ => false,
    }
}

/// The value of `a` at row `i` and that of `b` at row `j` are of one type, and the same bit for bit.
pub open spec fn same_value(a: ColumnData, i: int, b: ColumnData, j: int) -> bool {
    match (a, b) {
        (ColumnData::Int8(v), ColumnData::Int8(w)) => v@[i] == w@[j],
        (ColumnData::Int16(v), ColumnData::Int16(w)) => v@[i] == w@[j],
        (ColumnData::Int32(v), ColumnData::Int32(w)) => v@[i] == w@[j],
        (ColumnData::Int64(v), ColumnData::Int64(w)) => v@[i] == w@[j],
        (ColumnData::UInt8(v), ColumnData::UInt8(w)) => v@[i] == w@[j],
        (ColumnData::UInt16(v), ColumnData::UInt16(w)) => v@[i] == w@[j],
        (ColumnData::UInt32(v), ColumnData::UInt32(w)) => v@[i] == w@[j],
        (ColumnData::UInt64(v), ColumnData::UInt64(w)) => v@[i] == w@[j],
        (ColumnData::Float32(v), ColumnData::Float32(w)) => v@[i] == w@[j],
        (ColumnData::Float64(v), ColumnData::Float64(w)) => v@[i] == w@[j],
        (ColumnData::Boolean(v), ColumnData::Boolean(w)) => v@[i] == w@[j],
        (ColumnData::Utf8(v), ColumnData::Utf8(w)) => v@[i]@ == w@[j]@,
        (ColumnData::LargeUtf8(v), ColumnData::LargeUtf8(w)) => v@[i]@ == w@[j]@,
        (ColumnData::Binary(v), ColumnData::Binary(w)) => v@[i]@ == w@[j]@,
        (ColumnData::LargeBinary(v), ColumnData::LargeBinary(w)) => v@[i]@ == w@[j]@,
        _ => false,
    }
}

/// Cells of one type that is hashed have the same bytes exactly where both hold no value, or both
/// hold the same one; in particular a missing value differs from every value. There are bytes for
/// every such cell.
pub proof fn law_equal_bytes_are_equal_cells(a: Column, i: int, b: Column, j: int)
    requires
        a.wf(),
        b.wf(),
        0 <= i < a.nulls@.len(),
        0 <= j < b.nulls@.len(),
        same_hashed_type(a.data, b.data),
    ensures
        cell_bytes(a, i) is Ok,
        cell_bytes(b, j) is Ok,
        cell_bytes(a, i) == cell_bytes(b, j) <==> if a.nulls@[i] {
            b.nulls@[j]
        } else {
            !b.nulls@[j] && same_value(a.data, i, b.data, j)
        },
{
    let x = cell_bytes(a, i)->Ok_0;
    let y = cell_bytes(b, j)->Ok_0;
    if a.nulls@[i] != b.nulls@[j] {
        assert(x[0] != y[0]);
    } else if !a.nulls@[i] {
        lemma_value_bytes(a.data, i, b.data, j);
        let p = value_bytes(a.data, i)->Ok_0;
        let q = value_bytes(b.data, j)->Ok_0;
        assert(x.skip(1) =~= p);
        assert(y.skip(1) =~= q);
    }
}

/// Values of one type that is hashed have the same bytes exactly where they are the same.
proof fn lemma_value_bytes(a: ColumnData, i: int, b: ColumnData, j: int)
    requires
        same_hashed_type(a, b),
    ensures
        value_bytes(a, i) is Ok,
        value_bytes(b, j) is Ok,
        value_bytes(a, i) == value_bytes(b, j) <==> same_value(a, i, b, j),
{
    crate::bytes::lemma_byte_ranges();
    match (a, b) {
        (ColumnData::Int8(v), ColumnData::Int8(w)) => {
            lemma_numbers(wrapped(v@[i] as int, 0x100), wrapped(w@[j] as int, 0x100), 1);
        },
        (ColumnData::Int16(v), ColumnData::Int16(w)) => {
            lemma_numbers(wrapped(v@[i] as int, 0x1_0000), wrapped(w@[j] as int, 0x1_0000), 2);
        },
        (ColumnData::Int32(v), ColumnData::Int32(w)) => {
            lemma_numbers(
                wrapped(v@[i] as int, 0x1_0000_0000),
                wrapped(w@[j] as int, 0x1_0000_0000),
                4,
            );
        },
        (ColumnData::Int64(v), ColumnData::Int64(w)) => {
            lemma_numbers(
                wrapped(v@[i] as int, 0x1_0000_0000_0000_0000),
                wrapped(w@[j] as int, 0x1_0000_0000_0000_0000),
                8,
            );
        },
        (ColumnData::UInt8(v), ColumnData::UInt8(w)) => {
            lemma_numbers(v@[i] as nat, w@[j] as nat, 1);
        },
        (ColumnData::UInt16(v), ColumnData::UInt16(w)) => {
            lemma_numbers(v@[i] as nat, w@[j] as nat, 2);
        },
        (ColumnData::UInt32(v), ColumnData::UInt32(w)) => {
            lemma_numbers(v@[i] as nat, w@[j] as nat, 4);
        },
        (ColumnData::UInt64(v), ColumnData::UInt64(w)) => {
            lemma_numbers(v@[i] as nat, w@[j] as nat, 8);
        },
        (ColumnData::Float32(v), ColumnData::Float32(w)) => {
            lemma_numbers(v@[i] as nat, w@[j] as nat, 4);
        },
        (ColumnData::Float64(v), ColumnData::Float64(w)) => {
            lemma_numbers(v@[i] as nat, w@[j] as nat, 8);
        },
        (ColumnData::Boolean(v), ColumnData::Boolean(w)) => {
            assert(value_bytes(a, i)->Ok_0[0] == if v@[i] { 1u8 } else { 0u8 });
            assert(value_bytes(b, j)->Ok_0[0] == if w@[j] { 1u8 } else { 0u8 });
        },
        (ColumnData::Utf8(v), ColumnData::Utf8(w)) => {
            lemma_texts(v@[i]@, w@[j]@, 4);
        },
        (ColumnData::LargeUtf8(v), ColumnData::LargeUtf8(w)) => {
            lemma_texts(v@[i]@, w@[j]@, 8);
        },
        (ColumnData::Binary(v), ColumnData::Binary(w)) => {
            lemma_lengths_keep_bytes(v@[i]@, w@[j]@, 4);
        },
        (ColumnData::LargeBinary(v), ColumnData::LargeBinary(w)) => {
            lemma_lengths_keep_bytes(v@[i]@, w@[j]@, 8);
        },
        _ => {},
    }
}

/// Numbers that fit in `width` bytes have the same bytes only where they are the same.
proof fn lemma_numbers(x: nat, y: nat, width: nat)
    requires
        x < crate::bytes::byte_range(width),
        y < crate::bytes::byte_range(width),
    ensures
        crate::bytes::le_bytes(x, width) == crate::bytes::le_bytes(y, width) <==> x == y,
{
    crate::bytes::law_le_value_of_le_bytes(x, width);
    crate::bytes::law_le_value_of_le_bytes(y, width);
}

/// Bytes after a length of their own differ where the bytes do.
proof fn lemma_lengths_keep_bytes(x: Seq<u8>, y: Seq<u8>, width: nat)
    ensures
        with_length(x, width) == with_length(y, width) <==> x == y,
{
    crate::bytes::lemma_le_bytes_len(x.len(), width);
    crate::bytes::lemma_le_bytes_len(y.len(), width);
    assert(with_length(x, width).skip(width as int) =~= x);
    assert(with_length(y, width).skip(width as int) =~= y);
}

/// Texts after the length of their bytes differ where the texts do.
proof fn lemma_texts(x: Seq<char>, y: Seq<char>, width: nat)
    ensures
        with_length(vstd::utf8::encode_utf8(x), width) == with_length(
            vstd::utf8::encode_utf8(y),
            width,
        ) <==> x == y,
{
    lemma_lengths_keep_bytes(vstd::utf8::encode_utf8(x), vstd::utf8::encode_utf8(y), width);
    vstd::utf8::encode_utf8_decode_utf8(x);
    vstd::utf8::encode_utf8_decode_utf8(y);
}

/// The column of a field id is the first whose metadata says so; where none does, the one at that
/// place; and where there is none at that place either, there is no column.
pub proof fn law_column_of_a_field(columns: Seq<Column>, field_id: i32)
    ensures
        match found_column(columns, field_id) {
            Ok(c) => c < columns.len() && ({
                ||| columns[c as int].field_id is Some && crate::text::parsed_i32(
                    columns[c as int].field_id->0@,
                ) == Some(field_id) && forall|i: int|
                    0 <= i < c ==> ((#[trigger] columns[i]).field_id is None
                        || crate::text::parsed_i32(columns[i].field_id->0@) != Some(field_id))
                ||| c == field_id && forall|i: int|
                    0 <= i < columns.len() ==> ((#[trigger] columns[i]).field_id is None
                        || crate::text::parsed_i32(columns[i].field_id->0@) != Some(field_id))
            }),
            Err(e) => !(0 <= field_id < columns.len()) && e == (Error::FieldNotFound {
                field_id,
                num_columns: columns.len() as usize,
            }) && forall|i: int|
                0 <= i < columns.len() ==> ((#[trigger] columns[i]).field_id is None
                    || crate::text::parsed_i32(columns[i].field_id->0@) != Some(field_id)),
        },
{
    lemma_first_named(columns, field_id, 0);
}

/// The first column from `from` on that has a field id has none before it from there on.
proof fn lemma_first_named(columns: Seq<Column>, field_id: i32, from: nat)
    ensures
        match first_named(columns, field_id, from) {
            Some(c) => from <= c < columns.len() && names_field(columns[c as int], field_id)
                && forall|i: int| from <= i < c ==> !names_field(#[trigger] columns[i], field_id),
            None => forall|i: int|
                from <= i < columns.len() ==> !names_field(#[trigger] columns[i], field_id),
        },
    decreases columns.len() - from,
{
    if from < columns.len() && !names_field(columns[from as int], field_id) {
        lemma_first_named(columns, field_id, from + 1);
    }
}

/// A cell without a value is a single zero byte.
pub proof fn law_missing_cell(column: Column, row: int)
    requires
        column.nulls@[row],
    ensures
        cell_bytes(column, row) == Ok::<Seq<u8>, Error>(seq![0u8]),
{
}

/// A cell that holds a number is a one and then the number's bytes, as many as its type has, lowest
/// first. Those of a negative number are its digits to the base 256 as division rounds down, which
/// is two's complement.
pub proof fn law_number_cell(column: Column, row: int, x: int, width: nat, k: nat)
    requires
        !column.nulls@[row],
        match column.data {
            ColumnData::Int8(v) => x == v@[row] && width == 1,
            ColumnData::Int16(v) => x == v@[row] && width == 2,
            ColumnData::Int32(v) => x == v@[row] && width == 4,
            ColumnData::Int64(v) => x == v@[row] && width == 8,
            ColumnData::UInt8(v) => x == v@[row] && width == 1,
            ColumnData::UInt16(v) => x == v@[row] && width == 2,
            ColumnData::UInt32(v) => x == v@[row] && width == 4,
            ColumnData::UInt64(v) => x == v@[row] && width == 8,
            ColumnData::Float32(v) => x == v@[row] && width == 4,
            ColumnData::Float64(v) => x == v@[row] && width == 8,
            _ => false,
        },
        k < width,
    ensures
        cell_bytes(column, row) matches Ok(bytes) && bytes.len() == 1 + width && bytes[0] == 1
            && bytes[1 + k as int] == x / vstd::arithmetic::power::pow(256, k) % 256,
{
    crate::bytes::lemma_byte_ranges();
    crate::bytes::law_byte_range_is_a_power(width);
    let whole = vstd::arithmetic::power::pow(256, width);
    let part = vstd::arithmetic::power::pow(256, k);
    let y = wrapped(x, whole as nat);
    assert(-whole <= x);
    crate::bytes::lemma_le_bytes_len(y, width);
    crate::bytes::law_le_bytes_are_digits(y, width, k);
    assert(value_bytes(column.data, row) == Ok::<Seq<u8>, Error>(
        crate::bytes::le_bytes(y, width),
    ));
    if x < 0 {
        let rest = (width - k - 1) as nat;
        let high = vstd::arithmetic::power::pow(256, rest);
        vstd::arithmetic::power::lemma_pow_adds(256, k, (width - k) as nat);
        vstd::arithmetic::power::lemma_pow_positive(256, k);
        assert(vstd::arithmetic::power::pow(256, (width - k) as nat) == 256 * high) by {
            reveal(vstd::arithmetic::power::pow);
        }
        assert(whole == part * (256 * high));
        assert(part * (256 * high) == (256 * high) * part) by (nonlinear_arith);
        vstd::arithmetic::div_mod::lemma_hoist_over_denominator(x, 256 * high, part as nat);
        assert(y as int / part == x / part + 256 * high);
        assert((x / part + 256 * high) % 256 == (x / part) % 256);
    }
}

/// A cell that holds a truth value is a one and then one for true or zero for false.
pub proof fn law_boolean_cell(column: Column, row: int)
    requires
        !column.nulls@[row],
        column.data is Boolean,
    ensures
        cell_bytes(column, row) == Ok::<Seq<u8>, Error>(
            seq![
                1u8,
                if column.data->Boolean_0@[row] {
                    1u8
                } else {
                    0u8
                },
            ],
        ),
{
    assert(cell_bytes(column, row)->Ok_0 =~= seq![
        1u8,
        if column.data->Boolean_0@[row] {
            1u8
        } else {
            0u8
        },
    ]);
}

/// A cell that holds a text or bytes is a one, then their length in four bytes, or eight for the
/// large types, lowest first, and then the bytes themselves, which for a text are its UTF-8 ones.
pub proof fn law_bytes_cell(column: Column, row: int, content: Seq<u8>, width: nat, k: nat)
    requires
        !column.nulls@[row],
        match column.data {
            ColumnData::Utf8(v) => content == vstd::utf8::encode_utf8(v@[row]@) && width == 4,
            ColumnData::LargeUtf8(v) => content == vstd::utf8::encode_utf8(v@[row]@) && width == 8,
            ColumnData::Binary(v) => content == v@[row]@ && width == 4,
            ColumnData::LargeBinary(v) => content == v@[row]@ && width == 8,
            _ => false,
        },
        k < width,
    ensures
        cell_bytes(column, row) matches Ok(bytes) && bytes.len() == 1 + width + content.len()
            && bytes[0] == 1 && bytes[1 + k as int] == content.len() as int / vstd::arithmetic::power::pow(
            256,
            k,
        ) % 256 && bytes.subrange(1 + width as int, bytes.len() as int) == content,
{
    crate::bytes::lemma_le_bytes_len(content.len(), width);
    crate::bytes::law_le_bytes_are_digits(content.len(), width, k);
    let bytes = cell_bytes(column, row)->Ok_0;
    assert(bytes =~= seq![1u8] + (crate::bytes::le_bytes(content.len(), width) + content));
    assert(bytes.subrange(1 + width as int, bytes.len() as int) =~= content);
}

/// A value of a type that is not hashed has no bytes.
pub proof fn law_unsupported_cell(column: Column, row: int)
    requires
        !column.nulls@[row],
        column.data is Unsupported,
    ensures
        cell_bytes(column, row) == Err::<Seq<u8>, Error>(
            Error::UnsupportedArrayType(column.data->Unsupported_0),
        ),
{
}

} // verus!
