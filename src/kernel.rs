//! Columns of any element kind, and the entry points that check shapes and
//! kinds before searching.
use vstd::prelude::*;

use crate::column::Column;
use crate::order::{Float32Bits, Float64Bits, Utf8Value};
use crate::search::{search_outcome, search_sorted_primitive_array, search_sorted_utf_array};

verus! {

/// The physical kind of a column's elements.
#[derive(Clone, Copy, Debug, PartialEq, Eq, Structural)]
pub enum ElementKind {
    Int8,
    Int16,
    Int32,
    Int64,
    Int128,
    UInt8,
    UInt16,
    UInt32,
    UInt64,
    UInt128,
    Float32,
    Float64,
    Utf8,
    LargeUtf8,
    Null,
    Boolean,
    Float16,
    Int256,
    DaysMs,
    MonthDayNano,
    Binary,
    LargeBinary,
    FixedSizeBinary,
    List,
    LargeList,
    FixedSizeList,
    Struct,
    Union,
    KeyValueMap,
    Dictionary,
}

/// The kinds that the search can order.
pub open spec fn is_supported(kind: ElementKind) -> bool {
    !(kind is Null || kind is Boolean || kind is Float16 || kind is Int256 || kind is DaysMs || kind is MonthDayNano || kind is Binary || kind is LargeBinary || kind is FixedSizeBinary || kind is List || kind is LargeList || kind is FixedSizeList || kind is Struct || kind is Union || kind is KeyValueMap || kind is Dictionary)
}

pub fn supports(kind: ElementKind) -> (r: bool)
    ensures
        r == is_supported(kind),
{
    match kind {
        ElementKind::Int8 => true,
        ElementKind::Int16 => true,
        ElementKind::Int32 => true,
        ElementKind::Int64 => true,
        ElementKind::Int128 => true,
        ElementKind::UInt8 => true,
        ElementKind::UInt16 => true,
        ElementKind::UInt32 => true,
        ElementKind::UInt64 => true,
        ElementKind::UInt128 => true,
        ElementKind::Float32 => true,
        ElementKind::Float64 => true,
        ElementKind::Utf8 => true,
        ElementKind::LargeUtf8 => true,
        _ => false,
    }
}

/// A column whose element kind is known only at run time. A column of a kind
/// that the search cannot order keeps only its kind and length.
pub enum AnyColumn {
    Int8(Column<i8>),
    Int16(Column<i16>),
    Int32(Column<i32>),
    Int64(Column<i64>),
    Int128(Column<i128>),
    UInt8(Column<u8>),
    UInt16(Column<u16>),
    UInt32(Column<u32>),
    UInt64(Column<u64>),
    UInt128(Column<u128>),
    Float32(Column<Float32Bits>),
    Float64(Column<Float64Bits>),
    Utf8(Column<Utf8Value>),
    LargeUtf8(Column<Utf8Value>),
    Unsupported { kind: ElementKind, len: usize },
}

impl AnyColumn {
    pub open spec fn wf(&self) -> bool {
        match self {
            AnyColumn::Int8(c) => c.wf(),
            AnyColumn::Int16(c) => c.wf(),
            AnyColumn::Int32(c) => c.wf(),
            AnyColumn::Int64(c) => c.wf(),
            AnyColumn::Int128(c) => c.wf(),
            AnyColumn::UInt8(c) => c.wf(),
            AnyColumn::UInt16(c) => c.wf(),
            AnyColumn::UInt32(c) => c.wf(),
            AnyColumn::UInt64(c) => c.wf(),
            AnyColumn::UInt128(c) => c.wf(),
            AnyColumn::Float32(c) => c.wf(),
            AnyColumn::Float64(c) => c.wf(),
            AnyColumn::Utf8(c) => c.wf(),
            AnyColumn::LargeUtf8(c) => c.wf(),
            AnyColumn::Unsupported { kind, len } => !is_supported(*kind),
        }
    }

    pub open spec fn kind_of(&self) -> ElementKind {
        match self {
            AnyColumn::Int8(_) => ElementKind::Int8,
            AnyColumn::Int16(_) => ElementKind::Int16,
            AnyColumn::Int32(_) => ElementKind::Int32,
            AnyColumn::Int64(_) => ElementKind::Int64,
            AnyColumn::Int128(_) => ElementKind::Int128,
            AnyColumn::UInt8(_) => ElementKind::UInt8,
            AnyColumn::UInt16(_) => ElementKind::UInt16,
            AnyColumn::UInt32(_) => ElementKind::UInt32,
            AnyColumn::UInt64(_) => ElementKind::UInt64,
            AnyColumn::UInt128(_) => ElementKind::UInt128,
            AnyColumn::Float32(_) => ElementKind::Float32,
            AnyColumn::Float64(_) => ElementKind::Float64,
            AnyColumn::Utf8(_) => ElementKind::Utf8,
            AnyColumn::LargeUtf8(_) => ElementKind::LargeUtf8,
            AnyColumn::Unsupported { kind, len } => *kind,
        }
    }

    pub open spec fn len_of(&self) -> nat {
        match self {
            AnyColumn::Int8(c) => c@.len(),
            AnyColumn::Int16(c) => c@.len(),
            AnyColumn::Int32(c) => c@.len(),
            AnyColumn::Int64(c) => c@.len(),
            AnyColumn::Int128(c) => c@.len(),
            AnyColumn::UInt8(c) => c@.len(),
            AnyColumn::UInt16(c) => c@.len(),
            AnyColumn::UInt32(c) => c@.len(),
            AnyColumn::UInt64(c) => c@.len(),
            AnyColumn::UInt128(c) => c@.len(),
            AnyColumn::Float32(c) => c@.len(),
            AnyColumn::Float64(c) => c@.len(),
            AnyColumn::Utf8(c) => c@.len(),
            AnyColumn::LargeUtf8(c) => c@.len(),
            AnyColumn::Unsupported { kind, len } => *len as nat,
        }
    }

    pub fn kind(&self) -> (r: ElementKind)
        ensures
            r == self.kind_of(),
    {
        match self {
            AnyColumn::Int8(_) => ElementKind::Int8,
            AnyColumn::Int16(_) => ElementKind::Int16,
            AnyColumn::Int32(_) => ElementKind::Int32,
            AnyColumn::Int64(_) => ElementKind::Int64,
            AnyColumn::Int128(_) => ElementKind::Int128,
            AnyColumn::UInt8(_) => ElementKind::UInt8,
            AnyColumn::UInt16(_) => ElementKind::UInt16,
            AnyColumn::UInt32(_) => ElementKind::UInt32,
            AnyColumn::UInt64(_) => ElementKind::UInt64,
            AnyColumn::UInt128(_) => ElementKind::UInt128,
            AnyColumn::Float32(_) => ElementKind::Float32,
            AnyColumn::Float64(_) => ElementKind::Float64,
            AnyColumn::Utf8(_) => ElementKind::Utf8,
            AnyColumn::LargeUtf8(_) => ElementKind::LargeUtf8,
            AnyColumn::Unsupported { kind, len } => *kind,
        }
    }

    pub fn len(&self) -> (r: usize)
        ensures
            r == self.len_of(),
    {
        match self {
            AnyColumn::Int8(c) => c.len(),
            AnyColumn::Int16(c) => c.len(),
            AnyColumn::Int32(c) => c.len(),
            AnyColumn::Int64(c) => c.len(),
            AnyColumn::Int128(c) => c.len(),
            AnyColumn::UInt8(c) => c.len(),
            AnyColumn::UInt16(c) => c.len(),
            AnyColumn::UInt32(c) => c.len(),
            AnyColumn::UInt64(c) => c.len(),
            AnyColumn::UInt128(c) => c.len(),
            AnyColumn::Float32(c) => c.len(),
            AnyColumn::Float64(c) => c.len(),
            AnyColumn::Utf8(c) => c.len(),
            AnyColumn::LargeUtf8(c) => c.len(),
            AnyColumn::Unsupported { kind, len } => *len,
        }
    }
}

/// Why a search was refused.
#[derive(Clone, Copy, Debug, PartialEq, Eq, Structural)]
pub enum SearchError {
    /// No columns were given to a composite search.
    EmptyInput,
    /// The numbers of haystack columns, key columns and direction flags differ.
    ColumnCountMismatch,
    /// A column's row count differs from that of the first column of its set.
    RowCountMismatch { found: usize, expected: usize },
    /// A haystack column and its key column hold different kinds.
    TypeMismatch { haystack: ElementKind, keys: ElementKind },
    /// The kind has no order to search by.
    UnsupportedKind(ElementKind),
}

/// What a search of the keys in the haystack returns, for columns of one
/// supported kind.
pub open spec fn any_search_outcome(h: AnyColumn, keys: AnyColumn, reversed: bool, r: Seq<u64>) -> bool {
    match (h, keys) {
        (AnyColumn::Int8(a), AnyColumn::Int8(b)) => search_outcome(a@, b@, reversed, r),
        (AnyColumn::Int16(a), AnyColumn::Int16(b)) => search_outcome(a@, b@, reversed, r),
        (AnyColumn::Int32(a), AnyColumn::Int32(b)) => search_outcome(a@, b@, reversed, r),
        (AnyColumn::Int64(a), AnyColumn::Int64(b)) => search_outcome(a@, b@, reversed, r),
        (AnyColumn::Int128(a), AnyColumn::Int128(b)) => search_outcome(a@, b@, reversed, r),
        (AnyColumn::UInt8(a), AnyColumn::UInt8(b)) => search_outcome(a@, b@, reversed, r),
        (AnyColumn::UInt16(a), AnyColumn::UInt16(b)) => search_outcome(a@, b@, reversed, r),
        (AnyColumn::UInt32(a), AnyColumn::UInt32(b)) => search_outcome(a@, b@, reversed, r),
        (AnyColumn::UInt64(a), AnyColumn::UInt64(b)) => search_outcome(a@, b@, reversed, r),
        (AnyColumn::UInt128(a), AnyColumn::UInt128(b)) => search_outcome(a@, b@, reversed, r),
        (AnyColumn::Float32(a), AnyColumn::Float32(b)) => search_outcome(a@, b@, reversed, r),
        (AnyColumn::Float64(a), AnyColumn::Float64(b)) => search_outcome(a@, b@, reversed, r),
        (AnyColumn::Utf8(a), AnyColumn::Utf8(b)) => search_outcome(a@, b@, reversed, r),
        (AnyColumn::LargeUtf8(a), AnyColumn::LargeUtf8(b)) => search_outcome(a@, b@, reversed, r),
        _ => false,
    }
}

/// The error of a single-column search, if any: kinds that differ, then a
/// kind without an order.
pub open spec fn single_check(h: AnyColumn, keys: AnyColumn) -> Option<SearchError> {
    if h.kind_of() != keys.kind_of() {
        Some(SearchError::TypeMismatch { haystack: h.kind_of(), keys: keys.kind_of() })
    } else if !is_supported(h.kind_of()) {
        Some(SearchError::UnsupportedKind(h.kind_of()))
    } else {
        None
    }
}

/// Searches every key of `keys` in `sorted_array`, declared sorted ascending,
/// or descending where `input_reversed` is set, for columns of any supported
/// kind. Each result is the key's right insertion point.
pub fn search_sorted(sorted_array: &AnyColumn, keys: &AnyColumn, input_reversed: bool) -> (r: Result<
    Vec<u64>,
    SearchError,
>)
    requires
        sorted_array.wf(),
        keys.wf(),
    ensures
        match single_check(*sorted_array, *keys) {
            Some(e) => r == Err::<Vec<u64>, SearchError>(e),
            None => r is Ok && any_search_outcome(*sorted_array, *keys, input_reversed, r->Ok_0@),
        },
{
    let hk = sorted_array.kind();
    let kk = keys.kind();
    if hk != kk {
        return Err(SearchError::TypeMismatch { haystack: hk, keys: kk });
    }
    match (sorted_array, keys) {
        (AnyColumn::Int8(a), AnyColumn::Int8(b)) => Ok(search_sorted_primitive_array(a, b, input_reversed)),
        (AnyColumn::Int16(a), AnyColumn::Int16(b)) => Ok(search_sorted_primitive_array(a, b, input_reversed)),
        (AnyColumn::Int32(a), AnyColumn::Int32(b)) => Ok(search_sorted_primitive_array(a, b, input_reversed)),
        (AnyColumn::Int64(a), AnyColumn::Int64(b)) => Ok(search_sorted_primitive_array(a, b, input_reversed)),
        (AnyColumn::Int128(a), AnyColumn::Int128(b)) => Ok(search_sorted_primitive_array(a, b, input_reversed)),
        (AnyColumn::UInt8(a), AnyColumn::UInt8(b)) => Ok(search_sorted_primitive_array(a, b, input_reversed)),
        (AnyColumn::UInt16(a), AnyColumn::UInt16(b)) => Ok(search_sorted_primitive_array(a, b, input_reversed)),
        (AnyColumn::UInt32(a), AnyColumn::UInt32(b)) => Ok(search_sorted_primitive_array(a, b, input_reversed)),
        (AnyColumn::UInt64(a), AnyColumn::UInt64(b)) => Ok(search_sorted_primitive_array(a, b, input_reversed)),
        (AnyColumn::UInt128(a), AnyColumn::UInt128(b)) => Ok(search_sorted_primitive_array(a, b, input_reversed)),
        (AnyColumn::Float32(a), AnyColumn::Float32(b)) => Ok(search_sorted_primitive_array(a, b, input_reversed)),
        (AnyColumn::Float64(a), AnyColumn::Float64(b)) => Ok(search_sorted_primitive_array(a, b, input_reversed)),
        (AnyColumn::Utf8(a), AnyColumn::Utf8(b)) => Ok(search_sorted_utf_array(a, b, input_reversed)),
        (AnyColumn::LargeUtf8(a), AnyColumn::LargeUtf8(b)) => Ok(search_sorted_utf_array(a, b, input_reversed)),
        _ => Err(SearchError::UnsupportedKind(hk)),
    }
}

} // verus!
