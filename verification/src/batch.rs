//! The columnar batch model: named, equal-length, typed columns.  Only the
//! physical shapes the reconcilers read and write are modelled with their
//! values; anything else is carried through as an opaque column whose
//! position and row count are preserved, so a caller can pair it back up
//! with its backing array.

use vstd::prelude::*;

verus! {

/// The physical contents of one column.
#[derive(Debug, PartialEq)]
pub enum ColumnData {
    /// Plain text.
    Utf8(Vec<Option<String>>),
    /// Plain text with 64-bit offsets.
    LargeUtf8(Vec<Option<String>>),
    /// Dictionary-coded text, carried by its logical values.
    DictUtf8(Vec<Option<String>>),
    Int32(Vec<Option<i32>>),
    Int64(Vec<Option<i64>>),
    /// Native day-precision dates: days since the epoch.
    Date32(Vec<Option<i32>>),
    /// Native millisecond-precision dates: milliseconds since the epoch.
    Date64(Vec<Option<i64>>),
    /// Native timestamps: nanoseconds since the epoch, with an optional
    /// timezone name.
    TimestampNanos(Vec<Option<i64>>, Option<String>),
    /// A column of a physical type the reconcilers never touch; only its
    /// row count is carried.
    Opaque(usize),
}

impl ColumnData {
    pub open spec fn spec_len(&self) -> int {
        match self {
            ColumnData::Utf8(v) => v@.len() as int,
            ColumnData::LargeUtf8(v) => v@.len() as int,
            ColumnData::DictUtf8(v) => v@.len() as int,
            ColumnData::Int32(v) => v@.len() as int,
            ColumnData::Int64(v) => v@.len() as int,
            ColumnData::Date32(v) => v@.len() as int,
            ColumnData::Date64(v) => v@.len() as int,
            ColumnData::TimestampNanos(v, _) => v@.len() as int,
            ColumnData::Opaque(n) => *n as int,
        }
    }

    /// Number of rows in this column.
    pub fn len(&self) -> (r: usize)
        ensures
            r == self.spec_len(),
    {
        match self {
            ColumnData::Utf8(v) => v.len(),
            ColumnData::LargeUtf8(v) => v.len(),
            ColumnData::DictUtf8(v) => v.len(),
            ColumnData::Int32(v) => v.len(),
            ColumnData::Int64(v) => v.len(),
            ColumnData::Date32(v) => v.len(),
            ColumnData::Date64(v) => v.len(),
            ColumnData::TimestampNanos(v, _) => v.len(),
            ColumnData::Opaque(n) => *n,
        }
    }
}

/// One named column.
#[derive(Debug, PartialEq)]
pub struct Column {
    pub name: String,
    pub nullable: bool,
    pub data: ColumnData,
}

/// An ordered set of named, equal-length columns.
#[derive(Debug, PartialEq)]
pub struct Batch {
    pub columns: Vec<Column>,
}

impl Batch {
    /// All columns hold the same number of rows.
    pub open spec fn wf(&self) -> bool {
        forall|i: int|
            0 <= i < self.columns@.len() ==> (#[trigger] self.columns@[i]).data.spec_len()
                == self.spec_height()
    }

    pub open spec fn spec_height(&self) -> int {
        if self.columns@.len() == 0 {
            0
        } else {
            self.columns@[0].data.spec_len()
        }
    }

    /// Number of rows.
    pub fn height(&self) -> (r: usize)
        ensures
            r == self.spec_height(),
    {
        if self.columns.len() == 0 {
            0
        } else {
            self.columns[0].data.len()
        }
    }

    /// Number of columns.
    pub fn num_columns(&self) -> (r: usize)
        ensures
            r == self.columns@.len(),
    {
        self.columns.len()
    }
}

} // verus!
