//! The values of SQLite, and how a row of them is read.

use vstd::prelude::*;

verus! {

/// A value of SQLite.
#[derive(Debug, PartialEq, Eq)]
pub enum SqlValue {
    Null,
    Integer(i64),
    /// A floating-point number, as the bits of its IEEE 754 form.
    Real(u64),
    Text(String),
    Blob(Vec<u8>),
}

/// A value, with text and bytes as sequences.
pub enum ValueView {
    Null,
    Integer(i64),
    Real(u64),
    Text(Seq<char>),
    Blob(Seq<u8>),
}

impl View for SqlValue {
    type V = ValueView;

    open spec fn view(&self) -> ValueView {
        match *self {
            SqlValue::Null => ValueView::Null,
            SqlValue::Integer(n) => ValueView::Integer(n),
            SqlValue::Real(bits) => ValueView::Real(bits),
            SqlValue::Text(s) => ValueView::Text(s@),
            SqlValue::Blob(b) => ValueView::Blob(b@),
        }
    }
}

/// The views of a list of values.
pub open spec fn value_views(values: Seq<SqlValue>) -> Seq<ValueView> {
    values.map_values(|v: SqlValue| v@)
}

/// The views of a list of rows.
pub open spec fn row_views(rows: Seq<Vec<SqlValue>>) -> Seq<Seq<ValueView>> {
    rows.map_values(|r: Vec<SqlValue>| value_views(r@))
}

/// Why a row cannot be read.
#[derive(Debug, Clone, Copy, PartialEq, Eq, Structural)]
pub enum RowError {
    /// The row has no such column.
    InvalidColumnIndex(usize),
    /// The column holds a value of another kind.
    InvalidColumnType(usize),
    /// The column holds an integer that does not fit.
    IntegralValueOutOfRange(usize, i64),
}

/// What a column is read as.
pub enum ColumnKind {
    /// A text.
    Text,
    /// An integer of 32 bits.
    Int32,
    /// An integer of 64 bits.
    Int64,
    /// Bytes, or nothing.
    OptionalBlob,
}

/// Why column `i` of a row cannot be read as a value of that kind, if it
/// cannot.
pub open spec fn fault(row: Seq<ValueView>, i: int, kind: ColumnKind) -> Option<RowError> {
    if i >= row.len() {
        Some(RowError::InvalidColumnIndex(i as usize))
    } else {
        match (kind, row[i]) {
            (ColumnKind::Text, ValueView::Text(_)) => None,
            (ColumnKind::Int64, ValueView::Integer(_)) => None,
            (ColumnKind::Int32, ValueView::Integer(n)) => if i32::MIN <= n <= i32::MAX {
                None
            } else {
                Some(RowError::IntegralValueOutOfRange(i as usize, n))
            },
            (ColumnKind::OptionalBlob, ValueView::Null) => None,
            (ColumnKind::OptionalBlob, ValueView::Blob(_)) => None,
            _ => Some(RowError::InvalidColumnType(i as usize)),
        }
    }
}

/// Whether `error` is the fault of the first column of a row that cannot be
/// read as the kind that is asked of it.
pub open spec fn first_fault(row: Seq<ValueView>, kinds: Seq<ColumnKind>, error: RowError) -> bool {
    exists|i: int|
        {
            &&& 0 <= i < kinds.len()
            &&& #[trigger] fault(row, i, kinds[i]) == Some(error)
            &&& forall|k: int| 0 <= k < i ==> #[trigger] fault(row, k, kinds[k]) is None
        }
}

/// Whether every column of a row can be read as the kind that is asked of it.
pub open spec fn faultless(row: Seq<ValueView>, kinds: Seq<ColumnKind>) -> bool {
    forall|i: int| 0 <= i < kinds.len() ==> #[trigger] fault(row, i, kinds[i]) is None
}

/// The text in column `i`.
pub fn get_text(row: &Vec<SqlValue>, i: usize) -> (read: Result<String, RowError>)
    ensures
        match read {
            Ok(s) => {
                &&& fault(value_views(row@), i as int, ColumnKind::Text) is None
                &&& value_views(row@)[i as int] == ValueView::Text(s@)
            },
            Err(e) => fault(value_views(row@), i as int, ColumnKind::Text) == Some(e),
        },
{
    if i >= row.len() {
        return Err(RowError::InvalidColumnIndex(i));
    }
    match &row[i] {
        SqlValue::Text(s) => Ok(s.clone()),
        _ => Err(RowError::InvalidColumnType(i)),
    }
}

/// The integer in column `i`.
pub fn get_i64(row: &Vec<SqlValue>, i: usize) -> (read: Result<i64, RowError>)
    ensures
        match read {
            Ok(n) => {
                &&& fault(value_views(row@), i as int, ColumnKind::Int64) is None
                &&& value_views(row@)[i as int] == ValueView::Integer(n)
            },
            Err(e) => fault(value_views(row@), i as int, ColumnKind::Int64) == Some(e),
        },
{
    if i >= row.len() {
        return Err(RowError::InvalidColumnIndex(i));
    }
    match &row[i] {
        SqlValue::Integer(n) => Ok(*n),
        _ => Err(RowError::InvalidColumnType(i)),
    }
}

/// The integer in column `i`, which has to fit in 32 bits.
pub fn get_i32(row: &Vec<SqlValue>, i: usize) -> (read: Result<i32, RowError>)
    ensures
        match read {
            Ok(n) => {
                &&& fault(value_views(row@), i as int, ColumnKind::Int32) is None
                &&& value_views(row@)[i as int] == ValueView::Integer(n as i64)
            },
            Err(e) => fault(value_views(row@), i as int, ColumnKind::Int32) == Some(e),
        },
{
    match get_i64(row, i) {
        Ok(n) => {
            if n < i32::MIN as i64 || n > i32::MAX as i64 {
                Err(RowError::IntegralValueOutOfRange(i, n))
            } else {
                Ok(n as i32)
            }
        },
        Err(e) => Err(e),
    }
}

/// The bytes in column `i`, if it is not null.
pub fn get_optional_blob(row: &Vec<SqlValue>, i: usize) -> (read: Result<
    Option<Vec<u8>>,
    RowError,
>)
    ensures
        match read {
            Ok(found) => {
                &&& fault(value_views(row@), i as int, ColumnKind::OptionalBlob) is None
                &&& value_views(row@)[i as int] == match found {
                    Some(b) => ValueView::Blob(b@),
                    None => ValueView::Null,
                }
            },
            Err(e) => fault(value_views(row@), i as int, ColumnKind::OptionalBlob) == Some(e),
        },
{
    if i >= row.len() {
        return Err(RowError::InvalidColumnIndex(i));
    }
    match &row[i] {
        SqlValue::Null => Ok(None),
        SqlValue::Blob(b) => Ok(Some(vstd::slice::slice_to_vec(b.as_slice()))),
        _ => Err(RowError::InvalidColumnType(i)),
    }
}

/// Every text can be read as a text, every integer as one of 64 bits and, where
/// it fits, as one of 32, and null and all bytes as optional bytes; nothing
/// else can. The fault says the column, and the number that does not fit.
pub proof fn law_columns_are_read_by_their_kind(row: Seq<ValueView>, i: int)
    requires
        0 <= i <= usize::MAX,
    ensures
        ({
            let text = fault(row, i, ColumnKind::Text);
            let int32 = fault(row, i, ColumnKind::Int32);
            let int64 = fault(row, i, ColumnKind::Int64);
            let blob = fault(row, i, ColumnKind::OptionalBlob);
            let wrong = Some(RowError::InvalidColumnType(i as usize));
            if i < row.len() {
                match row[i] {
                    ValueView::Text(_) => text is None && int32 == wrong && int64 == wrong && blob
                        == wrong,
                    ValueView::Integer(n) => {
                        &&& int64 is None
                        &&& text == wrong
                        &&& blob == wrong
                        &&& -0x8000_0000 <= n < 0x8000_0000 ==> int32 is None
                        &&& !(-0x8000_0000 <= n < 0x8000_0000) ==> int32 == Some(
                            RowError::IntegralValueOutOfRange(i as usize, n),
                        )
                    },
                    ValueView::Real(_) => text == wrong && int32 == wrong && int64 == wrong && blob
                        == wrong,
                    ValueView::Null | ValueView::Blob(_) => blob is None && text == wrong && int32
                        == wrong && int64 == wrong,
                }
            } else {
                let missing = Some(RowError::InvalidColumnIndex(i as usize));
                text == missing && int32 == missing && int64 == missing && blob == missing
            }
        }),
{
}

/// A row can either be read or has one first fault: that of a column before
/// which all can be read.
pub proof fn law_a_row_is_read_or_has_one_first_fault(
    row: Seq<ValueView>,
    kinds: Seq<ColumnKind>,
    a: RowError,
    b: RowError,
)
    ensures
        first_fault(row, kinds, a) && first_fault(row, kinds, b) ==> a == b,
        first_fault(row, kinds, a) ==> exists|i: int|
            0 <= i < kinds.len() && #[trigger] fault(row, i, kinds[i]) == Some(a),
        faultless(row, kinds) <==> !exists|e: RowError| first_fault(row, kinds, e),
{
    if first_fault(row, kinds, a) && first_fault(row, kinds, b) {
        let i = choose|i: int|
            {
                &&& 0 <= i < kinds.len()
                &&& #[trigger] fault(row, i, kinds[i]) == Some(a)
                &&& forall|k: int| 0 <= k < i ==> #[trigger] fault(row, k, kinds[k]) is None
            };
        let j = choose|j: int|
            {
                &&& 0 <= j < kinds.len()
                &&& #[trigger] fault(row, j, kinds[j]) == Some(b)
                &&& forall|k: int| 0 <= k < j ==> #[trigger] fault(row, k, kinds[k]) is None
            };
        if i < j {
            assert(fault(row, i, kinds[i]) is None);
        }
        if j < i {
            assert(fault(row, j, kinds[j]) is None);
        }
    }
    if !faultless(row, kinds) {
        let i = choose|i: int| 0 <= i < kinds.len() && !(#[trigger] fault(row, i, kinds[i]) is None);
        let first = lemma_first_fault(row, kinds, i);
        assert(first_fault(row, kinds, fault(row, first, kinds[first])->0));
    }
    if exists|e: RowError| first_fault(row, kinds, e) {
        let e = choose|e: RowError| first_fault(row, kinds, e);
        let i = choose|i: int|
            {
                &&& 0 <= i < kinds.len()
                &&& #[trigger] fault(row, i, kinds[i]) == Some(e)
                &&& forall|k: int| 0 <= k < i ==> #[trigger] fault(row, k, kinds[k]) is None
            };
        assert(!(fault(row, i, kinds[i]) is None));
    }
}

proof fn lemma_first_fault(row: Seq<ValueView>, kinds: Seq<ColumnKind>, i: int) -> (first: int)
    requires
        0 <= i < kinds.len(),
        !(fault(row, i, kinds[i]) is None),
    ensures
        0 <= first <= i,
        !(fault(row, first, kinds[first]) is None),
        forall|k: int| 0 <= k < first ==> #[trigger] fault(row, k, kinds[k]) is None,
    decreases i,
{
    if exists|k: int| 0 <= k < i && !(#[trigger] fault(row, k, kinds[k]) is None) {
        let k = choose|k: int| 0 <= k < i && !(#[trigger] fault(row, k, kinds[k]) is None);
        lemma_first_fault(row, kinds, k)
    } else {
        i
    }
}

/// What a value says is what it is made of, and a row says that of its columns.
pub proof fn law_values_say_what_they_are(
    value: SqlValue,
    rows: Seq<Vec<SqlValue>>,
    i: int,
    k: int,
)
    ensures
        match value {
            SqlValue::Null => value@ is Null,
            SqlValue::Integer(n) => value@ == ValueView::Integer(n),
            SqlValue::Real(bits) => value@ == ValueView::Real(bits),
            SqlValue::Text(s) => value@ == ValueView::Text(s@),
            SqlValue::Blob(b) => value@ == ValueView::Blob(b@),
        },
        row_views(rows).len() == rows.len(),
        0 <= i < rows.len() ==> row_views(rows)[i].len() == rows[i]@.len(),
        0 <= i < rows.len() && 0 <= k < rows[i]@.len() ==> row_views(rows)[i][k]
            == rows[i]@[k]@,
{
}

/// What a row is refused for is the fault of the leftmost column that cannot be
/// read, whatever stands to the right of it.
pub proof fn law_the_leftmost_fault_is_told(
    row: Seq<ValueView>,
    kinds: Seq<ColumnKind>,
    i: int,
    error: RowError,
    told: RowError,
)
    requires
        0 <= i < kinds.len(),
        fault(row, i, kinds[i]) == Some(error),
        forall|k: int| 0 <= k < i ==> #[trigger] fault(row, k, kinds[k]) is None,
    ensures
        first_fault(row, kinds, told) <==> told == error,
{
    assert(first_fault(row, kinds, error));
    law_a_row_is_read_or_has_one_first_fault(row, kinds, error, told);
}

} // verus!
