//! Search of composite keys: several columns compared row against row,
//! lexicographically, each in its own direction.
use vstd::prelude::*;

use std::cmp::Ordering;

use crate::column::{cell_le_at, Column};
use crate::kernel::{is_supported, single_check, supports, AnyColumn, SearchError};
use crate::order::{cell_le, lemma_cell_transitive, SortKey};

verus! {

/// The three-way outcome of a comparison made of its two `<=` tests.
pub open spec fn ordering_of(le: bool, ge: bool) -> Ordering {
    if le && ge {
        Ordering::Equal
    } else if le {
        Ordering::Less
    } else {
        Ordering::Greater
    }
}

/// Row `i` of `a` against row `j` of `b`, in the order of `cell_le`.
pub open spec fn column_cmp<T: SortKey>(a: Column<T>, i: int, b: Column<T>, j: int, reversed: bool) -> Ordering {
    ordering_of(cell_le(a@[i], b@[j], reversed), cell_le(b@[j], a@[i], reversed))
}

/// Row `i` of a haystack column against row `j` of its key column.
pub open spec fn dim_cmp(h: AnyColumn, i: int, k: AnyColumn, j: int, reversed: bool) -> Ordering {
    match (h, k) {
        (AnyColumn::Int8(a), AnyColumn::Int8(b)) => column_cmp(a, i, b, j, reversed),
        (AnyColumn::Int16(a), AnyColumn::Int16(b)) => column_cmp(a, i, b, j, reversed),
        (AnyColumn::Int32(a), AnyColumn::Int32(b)) => column_cmp(a, i, b, j, reversed),
        (AnyColumn::Int64(a), AnyColumn::Int64(b)) => column_cmp(a, i, b, j, reversed),
        (AnyColumn::Int128(a), AnyColumn::Int128(b)) => column_cmp(a, i, b, j, reversed),
        (AnyColumn::UInt8(a), AnyColumn::UInt8(b)) => column_cmp(a, i, b, j, reversed),
        (AnyColumn::UInt16(a), AnyColumn::UInt16(b)) => column_cmp(a, i, b, j, reversed),
        (AnyColumn::UInt32(a), AnyColumn::UInt32(b)) => column_cmp(a, i, b, j, reversed),
        (AnyColumn::UInt64(a), AnyColumn::UInt64(b)) => column_cmp(a, i, b, j, reversed),
        (AnyColumn::UInt128(a), AnyColumn::UInt128(b)) => column_cmp(a, i, b, j, reversed),
        (AnyColumn::Float32(a), AnyColumn::Float32(b)) => column_cmp(a, i, b, j, reversed),
        (AnyColumn::Float64(a), AnyColumn::Float64(b)) => column_cmp(a, i, b, j, reversed),
        (AnyColumn::Utf8(a), AnyColumn::Utf8(b)) => column_cmp(a, i, b, j, reversed),
        (AnyColumn::LargeUtf8(a), AnyColumn::LargeUtf8(b)) => column_cmp(a, i, b, j, reversed),
        _ => Ordering::Equal,
    }
}

/// Haystack row `i` against key row `j` over the columns from `d` on: the
/// first column that tells them apart decides.
pub open spec fn row_cmp(
    hs: Seq<AnyColumn>,
    i: int,
    ks: Seq<AnyColumn>,
    j: int,
    revs: Seq<bool>,
    d: int,
) -> Ordering
    decreases hs.len() - d,
{
    if d < 0 || d >= hs.len() {
        Ordering::Equal
    } else {
        let c = dim_cmp(hs[d], i, ks[d], j, revs[d]);
        if c == Ordering::Equal {
            row_cmp(hs, i, ks, j, revs, d + 1)
        } else {
            c
        }
    }
}

/// Haystack row `i` sorts at or before key row `j`.
pub open spec fn row_le(hs: Seq<AnyColumn>, i: int, ks: Seq<AnyColumn>, j: int, revs: Seq<bool>) -> bool {
    row_cmp(hs, i, ks, j, revs, 0) != Ordering::Greater
}

/// How many of the first `n` haystack rows sort at or before key row `j`.
pub open spec fn count_rows_le(hs: Seq<AnyColumn>, ks: Seq<AnyColumn>, j: int, revs: Seq<bool>, n: int) -> nat
    decreases n,
{
    if n <= 0 {
        0
    } else {
        count_rows_le(hs, ks, j, revs, n - 1) + if row_le(hs, n - 1, ks, j, revs) {
            1nat
        } else {
            0nat
        }
    }
}

/// The haystack rows at or before key row `j` come first, as they do in a
/// haystack sorted in the composite order.
pub open spec fn rows_le_prefix(hs: Seq<AnyColumn>, ks: Seq<AnyColumn>, j: int, revs: Seq<bool>, n: int) -> bool {
    forall|a: int, b: int|
        0 <= a <= b < n && #[trigger] row_le(hs, b, ks, j, revs) ==> #[trigger] row_le(hs, a, ks, j, revs)
}

/// Columns that a composite search can compare: one haystack column, one key
/// column and one flag per dimension, `n` haystack rows and `m` key rows.
pub open spec fn dims_ok(hs: Seq<AnyColumn>, ks: Seq<AnyColumn>, revs: Seq<bool>, n: nat, m: nat) -> bool {
    &&& hs.len() == ks.len()
    &&& revs.len() == hs.len()
    &&& forall|d: int|
        0 <= d < hs.len() ==> {
            &&& (#[trigger] hs[d]).wf()
            &&& ks[d].wf()
            &&& hs[d].kind_of() == ks[d].kind_of()
            &&& is_supported(hs[d].kind_of())
            &&& hs[d].len_of() == n
            &&& ks[d].len_of() == m
        }
}

/// The first row count from `from` on that differs from `expected`.
pub open spec fn first_len_mismatch(cols: Seq<AnyColumn>, expected: nat, from: int) -> Option<nat>
    decreases cols.len() - from,
{
    if from < 0 || from >= cols.len() {
        None
    } else if cols[from].len_of() != expected {
        Some(cols[from].len_of())
    } else {
        first_len_mismatch(cols, expected, from + 1)
    }
}

/// The first kind error among the dimensions from `from` on.
pub open spec fn first_kind_error(hs: Seq<AnyColumn>, ks: Seq<AnyColumn>, from: int) -> Option<SearchError>
    decreases hs.len() - from,
{
    if from < 0 || from >= hs.len() {
        None
    } else {
        match single_check(hs[from], ks[from]) {
            Some(e) => Some(e),
            None => first_kind_error(hs, ks, from + 1),
        }
    }
}

/// The error of a composite search, if any, in the order it is looked for:
/// no columns, unequal column counts, a haystack column of another length
/// than the first, a key column of another length than the first, then the
/// kinds of each dimension.
pub open spec fn multi_check(hs: Seq<AnyColumn>, ks: Seq<AnyColumn>, revs: Seq<bool>) -> Option<SearchError> {
    if hs.len() == 0 || ks.len() == 0 {
        Some(SearchError::EmptyInput)
    } else if hs.len() != ks.len() || revs.len() != hs.len() {
        Some(SearchError::ColumnCountMismatch)
    } else {
        match first_len_mismatch(hs, hs[0].len_of(), 0) {
            Some(f) => Some(
                SearchError::RowCountMismatch { found: f as usize, expected: hs[0].len_of() as usize },
            ),
            None => match first_len_mismatch(ks, ks[0].len_of(), 0) {
                Some(f) => Some(
                    SearchError::RowCountMismatch {
                        found: f as usize,
                        expected: ks[0].len_of() as usize,
                    },
                ),
                None => first_kind_error(hs, ks, 0),
            },
        }
    }
}

/// What a composite search returns: one index per key row, within the
/// haystack, and wherever the haystack rows at or before the key come first
/// (as on a haystack sorted in the composite order), the number of them.
pub open spec fn multi_outcome(hs: Seq<AnyColumn>, ks: Seq<AnyColumn>, revs: Seq<bool>, r: Seq<u64>) -> bool {
    &&& r.len() == ks[0].len_of()
    &&& forall|k: int| 0 <= k < r.len() ==> #[trigger] r[k] <= hs[0].len_of()
    &&& forall|k: int|
        0 <= k < r.len() && rows_le_prefix(hs, ks, k, revs, hs[0].len_of() as int) ==> #[trigger] r[k]
            == count_rows_le(hs, ks, k, revs, hs[0].len_of() as int)
}

/// Every haystack row sorts at or before every later row, in the composite
/// order.
pub open spec fn rows_sorted(hs: Seq<AnyColumn>, revs: Seq<bool>, n: int) -> bool {
    forall|a: int, b: int| 0 <= a <= b < n ==> #[trigger] row_le(hs, a, hs, b, revs)
}

proof fn lemma_column_cmp_transitive<T: SortKey>(
    x: Column<T>,
    y: Column<T>,
    a: int,
    b: int,
    j: int,
    reversed: bool,
)
    ensures
        ({
            let c1 = column_cmp(x, a, x, b, reversed);
            let c2 = column_cmp(x, b, y, j, reversed);
            let c3 = column_cmp(x, a, y, j, reversed);
            &&& c1 == Ordering::Less && c2 != Ordering::Greater ==> c3 == Ordering::Less
            &&& c1 == Ordering::Equal && c2 == Ordering::Less ==> c3 == Ordering::Less
            &&& c1 == Ordering::Equal && c2 == Ordering::Equal ==> c3 == Ordering::Equal
        }),
{
    let p = x@[a];
    let q = x@[b];
    let s = y@[j];
    if cell_le(p, q, reversed) && cell_le(q, s, reversed) {
        lemma_cell_transitive(p, q, s, reversed);
    }
    if cell_le(q, s, reversed) && cell_le(s, p, reversed) {
        lemma_cell_transitive(q, s, p, reversed);
    }
    if cell_le(s, p, reversed) && cell_le(p, q, reversed) {
        lemma_cell_transitive(s, p, q, reversed);
    }
    if cell_le(s, q, reversed) && cell_le(q, p, reversed) {
        lemma_cell_transitive(s, q, p, reversed);
    }
}

proof fn lemma_dim_cmp_transitive(h: AnyColumn, k: AnyColumn, a: int, b: int, j: int, reversed: bool)
    requires
        k.wf(),
        h.kind_of() == k.kind_of(),
        is_supported(h.kind_of()),
    ensures
        ({
            let c1 = dim_cmp(h, a, h, b, reversed);
            let c2 = dim_cmp(h, b, k, j, reversed);
            let c3 = dim_cmp(h, a, k, j, reversed);
            &&& c1 == Ordering::Less && c2 != Ordering::Greater ==> c3 == Ordering::Less
            &&& c1 == Ordering::Equal && c2 == Ordering::Less ==> c3 == Ordering::Less
            &&& c1 == Ordering::Equal && c2 == Ordering::Equal ==> c3 == Ordering::Equal
        }),
{
    match h {
        AnyColumn::Int8(x) => match k {
            AnyColumn::Int8(y) => lemma_column_cmp_transitive(x, y, a, b, j, reversed),
            _ => {},
        },
        AnyColumn::Int16(x) => match k {
            AnyColumn::Int16(y) => lemma_column_cmp_transitive(x, y, a, b, j, reversed),
            _ => {},
        },
        AnyColumn::Int32(x) => match k {
            AnyColumn::Int32(y) => lemma_column_cmp_transitive(x, y, a, b, j, reversed),
            _ => {},
        },
        AnyColumn::Int64(x) => match k {
            AnyColumn::Int64(y) => lemma_column_cmp_transitive(x, y, a, b, j, reversed),
            _ => {},
        },
        AnyColumn::Int128(x) => match k {
            AnyColumn::Int128(y) => lemma_column_cmp_transitive(x, y, a, b, j, reversed),
            _ => {},
        },
        AnyColumn::UInt8(x) => match k {
            AnyColumn::UInt8(y) => lemma_column_cmp_transitive(x, y, a, b, j, reversed),
            _ => {},
        },
        AnyColumn::UInt16(x) => match k {
            AnyColumn::UInt16(y) => lemma_column_cmp_transitive(x, y, a, b, j, reversed),
            _ => {},
        },
        AnyColumn::UInt32(x) => match k {
            AnyColumn::UInt32(y) => lemma_column_cmp_transitive(x, y, a, b, j, reversed),
            _ => {},
        },
        AnyColumn::UInt64(x) => match k {
            AnyColumn::UInt64(y) => lemma_column_cmp_transitive(x, y, a, b, j, reversed),
            _ => {},
        },
        AnyColumn::UInt128(x) => match k {
            AnyColumn::UInt128(y) => lemma_column_cmp_transitive(x, y, a, b, j, reversed),
            _ => {},
        },
        AnyColumn::Float32(x) => match k {
            AnyColumn::Float32(y) => lemma_column_cmp_transitive(x, y, a, b, j, reversed),
            _ => {},
        },
        AnyColumn::Float64(x) => match k {
            AnyColumn::Float64(y) => lemma_column_cmp_transitive(x, y, a, b, j, reversed),
            _ => {},
        },
        AnyColumn::Utf8(x) => match k {
            AnyColumn::Utf8(y) => lemma_column_cmp_transitive(x, y, a, b, j, reversed),
            _ => {},
        },
        AnyColumn::LargeUtf8(x) => match k {
            AnyColumn::LargeUtf8(y) => lemma_column_cmp_transitive(x, y, a, b, j, reversed),
            _ => {},
        },
        AnyColumn::Unsupported { .. } => {},
    }
}

/// A haystack row at or before a second one, which is at or before a key
/// row, is at or before that key row.
proof fn lemma_row_transitive(
    hs: Seq<AnyColumn>,
    ks: Seq<AnyColumn>,
    revs: Seq<bool>,
    a: int,
    b: int,
    j: int,
    d: int,
)
    requires
        0 <= d,
        hs.len() == ks.len(),
        forall|e: int|
            0 <= e < hs.len() ==> {
                &&& ks[e].wf()
                &&& (#[trigger] hs[e]).kind_of() == ks[e].kind_of()
                &&& is_supported(hs[e].kind_of())
            },
        row_cmp(hs, a, hs, b, revs, d) != Ordering::Greater,
        row_cmp(hs, b, ks, j, revs, d) != Ordering::Greater,
    ensures
        row_cmp(hs, a, ks, j, revs, d) != Ordering::Greater,
    decreases hs.len() - d,
{
    if d < hs.len() {
        lemma_dim_cmp_transitive(hs[d], ks[d], a, b, j, revs[d]);
        let c1 = dim_cmp(hs[d], a, hs[d], b, revs[d]);
        let c2 = dim_cmp(hs[d], b, ks[d], j, revs[d]);
        if c1 == Ordering::Equal && c2 == Ordering::Equal {
            lemma_row_transitive(hs, ks, revs, a, b, j, d + 1);
        }
    }
}

proof fn lemma_sorted_rows_prefix(hs: Seq<AnyColumn>, ks: Seq<AnyColumn>, revs: Seq<bool>, j: int, n: int)
    requires
        hs.len() == ks.len(),
        forall|e: int|
            0 <= e < hs.len() ==> {
                &&& ks[e].wf()
                &&& (#[trigger] hs[e]).kind_of() == ks[e].kind_of()
                &&& is_supported(hs[e].kind_of())
            },
        rows_sorted(hs, revs, n),
    ensures
        rows_le_prefix(hs, ks, j, revs, n),
{
    assert forall|a: int, b: int|
        0 <= a <= b < n && #[trigger] row_le(hs, b, ks, j, revs) implies #[trigger] row_le(
        hs,
        a,
        ks,
        j,
        revs,
    ) by {
        assert(row_le(hs, a, hs, b, revs));
        lemma_row_transitive(hs, ks, revs, a, b, j, 0);
    }
}

proof fn lemma_rows_split_count(hs: Seq<AnyColumn>, ks: Seq<AnyColumn>, j: int, revs: Seq<bool>, n: int, p: int)
    requires
        0 <= p <= n,
        forall|i: int| 0 <= i < p ==> #[trigger] row_le(hs, i, ks, j, revs),
        forall|i: int| p <= i < n ==> !#[trigger] row_le(hs, i, ks, j, revs),
    ensures
        count_rows_le(hs, ks, j, revs, n) == p,
    decreases n,
{
    if n > 0 {
        if p == n {
            lemma_rows_split_count(hs, ks, j, revs, n - 1, p - 1);
        } else {
            lemma_rows_split_count(hs, ks, j, revs, n - 1, p);
        }
    }
}

proof fn lemma_no_len_mismatch(cols: Seq<AnyColumn>, expected: nat, from: int)
    requires
        0 <= from,
        first_len_mismatch(cols, expected, from) is None,
    ensures
        forall|d: int| from <= d < cols.len() ==> (#[trigger] cols[d]).len_of() == expected,
    decreases cols.len() - from,
{
    if from < cols.len() {
        lemma_no_len_mismatch(cols, expected, from + 1);
    }
}

proof fn lemma_no_kind_error(hs: Seq<AnyColumn>, ks: Seq<AnyColumn>, from: int)
    requires
        0 <= from,
        first_kind_error(hs, ks, from) is None,
    ensures
        forall|d: int|
            from <= d < hs.len() ==> (#[trigger] hs[d]).kind_of() == ks[d].kind_of() && is_supported(
                hs[d].kind_of(),
            ),
    decreases hs.len() - from,
{
    if from < hs.len() {
        lemma_no_kind_error(hs, ks, from + 1);
    }
}

fn column_cmp_exec<T: SortKey>(a: &Column<T>, i: usize, b: &Column<T>, j: usize, reversed: bool) -> (r:
    Ordering)
    requires
        a.wf(),
        b.wf(),
        i < a@.len(),
        j < b@.len(),
    ensures
        r == column_cmp(*a, i as int, *b, j as int, reversed),
{
    let le = cell_le_at(a, i, b, j, reversed);
    let ge = cell_le_at(b, j, a, i, reversed);
    if le && ge {
        Ordering::Equal
    } else if le {
        Ordering::Less
    } else {
        Ordering::Greater
    }
}

fn dim_cmp_exec(h: &AnyColumn, i: usize, k: &AnyColumn, j: usize, reversed: bool) -> (r: Ordering)
    requires
        h.wf(),
        k.wf(),
        i < h.len_of(),
        j < k.len_of(),
    ensures
        r == dim_cmp(*h, i as int, *k, j as int, reversed),
{
    match h {
        AnyColumn::Int8(a) => match k {
            AnyColumn::Int8(b) => column_cmp_exec(a, i, b, j, reversed),
            _ => Ordering::Equal,
        },
        AnyColumn::Int16(a) => match k {
            AnyColumn::Int16(b) => column_cmp_exec(a, i, b, j, reversed),
            _ => Ordering::Equal,
        },
        AnyColumn::Int32(a) => match k {
            AnyColumn::Int32(b) => column_cmp_exec(a, i, b, j, reversed),
            _ => Ordering::Equal,
        },
        AnyColumn::Int64(a) => match k {
            AnyColumn::Int64(b) => column_cmp_exec(a, i, b, j, reversed),
            _ => Ordering::Equal,
        },
        AnyColumn::Int128(a) => match k {
            AnyColumn::Int128(b) => column_cmp_exec(a, i, b, j, reversed),
            _ => Ordering::Equal,
        },
        AnyColumn::UInt8(a) => match k {
            AnyColumn::UInt8(b) => column_cmp_exec(a, i, b, j, reversed),
            _ => Ordering::Equal,
        },
        AnyColumn::UInt16(a) => match k {
            AnyColumn::UInt16(b) => column_cmp_exec(a, i, b, j, reversed),
            _ => Ordering::Equal,
        },
        AnyColumn::UInt32(a) => match k {
            AnyColumn::UInt32(b) => column_cmp_exec(a, i, b, j, reversed),
            _ => Ordering::Equal,
        },
        AnyColumn::UInt64(a) => match k {
            AnyColumn::UInt64(b) => column_cmp_exec(a, i, b, j, reversed),
            _ => Ordering::Equal,
        },
        AnyColumn::UInt128(a) => match k {
            AnyColumn::UInt128(b) => column_cmp_exec(a, i, b, j, reversed),
            _ => Ordering::Equal,
        },
        AnyColumn::Float32(a) => match k {
            AnyColumn::Float32(b) => column_cmp_exec(a, i, b, j, reversed),
            _ => Ordering::Equal,
        },
        AnyColumn::Float64(a) => match k {
            AnyColumn::Float64(b) => column_cmp_exec(a, i, b, j, reversed),
            _ => Ordering::Equal,
        },
        AnyColumn::Utf8(a) => match k {
            AnyColumn::Utf8(b) => column_cmp_exec(a, i, b, j, reversed),
            _ => Ordering::Equal,
        },
        AnyColumn::LargeUtf8(a) => match k {
            AnyColumn::LargeUtf8(b) => column_cmp_exec(a, i, b, j, reversed),
            _ => Ordering::Equal,
        },
        AnyColumn::Unsupported { .. } => Ordering::Equal,
    }
}

fn row_cmp_exec(
    hs: &Vec<AnyColumn>,
    i: usize,
    ks: &Vec<AnyColumn>,
    j: usize,
    revs: &Vec<bool>,
    n: usize,
    m: usize,
) -> (r: Ordering)
    requires
        dims_ok(hs@, ks@, revs@, n as nat, m as nat),
        i < n,
        j < m,
    ensures
        r == row_cmp(hs@, i as int, ks@, j as int, revs@, 0),
{
    let mut d: usize = 0;
    while d < hs.len()
        invariant
            dims_ok(hs@, ks@, revs@, n as nat, m as nat),
            i < n,
            j < m,
            d <= hs@.len(),
            row_cmp(hs@, i as int, ks@, j as int, revs@, 0) == row_cmp(
                hs@,
                i as int,
                ks@,
                j as int,
                revs@,
                d as int,
            ),
        decreases hs.len() - d,
    {
        let c = dim_cmp_exec(&hs[d], i, &ks[d], j, revs[d]);
        match c {
            Ordering::Equal => {},
            _ => {
                return c;
            },
        }
        d = d + 1;
    }
    Ordering::Equal
}

fn bisect_rows(hs: &Vec<AnyColumn>, ks: &Vec<AnyColumn>, revs: &Vec<bool>, k: usize, n: usize, m: usize) -> (r:
    usize)
    requires
        dims_ok(hs@, ks@, revs@, n as nat, m as nat),
        k < m,
    ensures
        r <= n,
        rows_le_prefix(hs@, ks@, k as int, revs@, n as int) ==> {
            &&& forall|i: int| 0 <= i < r ==> #[trigger] row_le(hs@, i, ks@, k as int, revs@)
            &&& forall|i: int| r <= i < n ==> !#[trigger] row_le(hs@, i, ks@, k as int, revs@)
        },
{
    let ghost prefix = rows_le_prefix(hs@, ks@, k as int, revs@, n as int);
    let mut lo: usize = 0;
    let mut hi: usize = n;
    while lo < hi
        invariant
            dims_ok(hs@, ks@, revs@, n as nat, m as nat),
            k < m,
            lo <= hi <= n,
            prefix == rows_le_prefix(hs@, ks@, k as int, revs@, n as int),
            prefix ==> {
                &&& forall|i: int| 0 <= i < lo ==> #[trigger] row_le(hs@, i, ks@, k as int, revs@)
                &&& forall|i: int| hi <= i < n ==> !#[trigger] row_le(hs@, i, ks@, k as int, revs@)
            },
        decreases hi - lo,
    {
        let mid = lo + (hi - lo) / 2;
        let c = row_cmp_exec(hs, mid, ks, k, revs, n, m);
        let at_or_before = match c {
            Ordering::Greater => false,
            _ => true,
        };
        if at_or_before {
            proof {
                if prefix {
                    assert forall|i: int| 0 <= i < mid + 1 implies #[trigger] row_le(
                        hs@,
                        i,
                        ks@,
                        k as int,
                        revs@,
                    ) by {
                        if i < mid {
                            assert(row_le(hs@, mid as int, ks@, k as int, revs@));
                        }
                    }
                }
            }
            lo = mid + 1;
        } else {
            proof {
                if prefix {
                    assert forall|i: int| mid <= i < n implies !#[trigger] row_le(
                        hs@,
                        i,
                        ks@,
                        k as int,
                        revs@,
                    ) by {
                        if i > mid && row_le(hs@, i, ks@, k as int, revs@) {
                            assert(row_le(hs@, mid as int, ks@, k as int, revs@));
                        }
                    }
                }
            }
            hi = mid;
        }
    }
    lo
}

fn find_len_mismatch(cols: &Vec<AnyColumn>, expected: usize) -> (r: Option<usize>)
    ensures
        match r {
            Some(f) => first_len_mismatch(cols@, expected as nat, 0) == Some(f as nat),
            None => first_len_mismatch(cols@, expected as nat, 0) is None,
        },
{
    let mut d: usize = 0;
    while d < cols.len()
        invariant
            d <= cols@.len(),
            first_len_mismatch(cols@, expected as nat, 0) == first_len_mismatch(
                cols@,
                expected as nat,
                d as int,
            ),
        decreases cols.len() - d,
    {
        let len = cols[d].len();
        if len != expected {
            return Some(len);
        }
        d = d + 1;
    }
    None
}

fn find_kind_error(hs: &Vec<AnyColumn>, ks: &Vec<AnyColumn>) -> (r: Option<SearchError>)
    requires
        hs@.len() == ks@.len(),
    ensures
        r == first_kind_error(hs@, ks@, 0),
{
    let mut d: usize = 0;
    while d < hs.len()
        invariant
            hs@.len() == ks@.len(),
            d <= hs@.len(),
            first_kind_error(hs@, ks@, 0) == first_kind_error(hs@, ks@, d as int),
        decreases hs.len() - d,
    {
        let hk = hs[d].kind();
        let kk = ks[d].kind();
        if hk != kk {
            return Some(SearchError::TypeMismatch { haystack: hk, keys: kk });
        }
        if !supports(hk) {
            return Some(SearchError::UnsupportedKind(hk));
        }
        d = d + 1;
    }
    None
}

/// Searches every key row, a tuple with one value per dimension, in the
/// haystack rows, compared lexicographically with each dimension in its own
/// direction. Each result is the key row's right insertion point. Shapes and
/// kinds are checked first and any disagreement is returned as an error.
pub fn search_sorted_multi_array(
    sorted_arrays: &Vec<AnyColumn>,
    key_arrays: &Vec<AnyColumn>,
    input_reversed: &Vec<bool>,
) -> (r: Result<Vec<u64>, SearchError>)
    requires
        forall|d: int| 0 <= d < sorted_arrays@.len() ==> (#[trigger] sorted_arrays@[d]).wf(),
        forall|d: int| 0 <= d < key_arrays@.len() ==> (#[trigger] key_arrays@[d]).wf(),
    ensures
        match multi_check(sorted_arrays@, key_arrays@, input_reversed@) {
            Some(e) => r == Err::<Vec<u64>, SearchError>(e),
            None => {
            &&& r is Ok
            &&& multi_outcome(sorted_arrays@, key_arrays@, input_reversed@, r->Ok_0@)
            &&& rows_sorted(sorted_arrays@, input_reversed@, sorted_arrays@[0].len_of() as int)
                ==> forall|k: int|
                0 <= k < r->Ok_0@.len() ==> #[trigger] r->Ok_0@[k] == count_rows_le(
                    sorted_arrays@,
                    key_arrays@,
                    k,
                    input_reversed@,
                    sorted_arrays@[0].len_of() as int,
                )
        },
        },
{
    let ghost hs = sorted_arrays@;
    let ghost ks = key_arrays@;
    let ghost revs = input_reversed@;
    if sorted_arrays.len() == 0 || key_arrays.len() == 0 {
        return Err(SearchError::EmptyInput);
    }
    if sorted_arrays.len() != key_arrays.len() || input_reversed.len() != sorted_arrays.len() {
        return Err(SearchError::ColumnCountMismatch);
    }
    let sorted_array_size = sorted_arrays[0].len();
    if let Some(found) = find_len_mismatch(sorted_arrays, sorted_array_size) {
        return Err(SearchError::RowCountMismatch { found, expected: sorted_array_size });
    }
    let key_array_size = key_arrays[0].len();
    if let Some(found) = find_len_mismatch(key_arrays, key_array_size) {
        return Err(SearchError::RowCountMismatch { found, expected: key_array_size });
    }
    if let Some(e) = find_kind_error(sorted_arrays, key_arrays) {
        return Err(e);
    }
    proof {
        lemma_no_len_mismatch(hs, sorted_array_size as nat, 0);
        lemma_no_len_mismatch(ks, key_array_size as nat, 0);
        lemma_no_kind_error(hs, ks, 0);
        assert(dims_ok(hs, ks, revs, sorted_array_size as nat, key_array_size as nat));
    }
    let mut results: Vec<u64> = Vec::with_capacity(key_array_size);
    let mut k: usize = 0;
    while k < key_array_size
        invariant
            hs == sorted_arrays@,
            ks == key_arrays@,
            revs == input_reversed@,
            hs.len() > 0,
            sorted_array_size == hs[0].len_of(),
            key_array_size == ks[0].len_of(),
            dims_ok(hs, ks, revs, sorted_array_size as nat, key_array_size as nat),
            k <= key_array_size,
            results@.len() == k,
            forall|j: int| 0 <= j < k ==> #[trigger] results@[j] <= sorted_array_size,
            forall|j: int|
                0 <= j < k && rows_le_prefix(hs, ks, j, revs, sorted_array_size as int) ==> #[trigger] results@[j]
                    == count_rows_le(hs, ks, j, revs, sorted_array_size as int),
            rows_sorted(hs, revs, sorted_array_size as int) ==> forall|j: int|
                0 <= j < k ==> rows_le_prefix(hs, ks, j, revs, sorted_array_size as int),
        decreases key_array_size - k,
    {
        let found = bisect_rows(
            sorted_arrays,
            key_arrays,
            input_reversed,
            k,
            sorted_array_size,
            key_array_size,
        );
        proof {
            if rows_sorted(hs, revs, sorted_array_size as int) {
                lemma_sorted_rows_prefix(hs, ks, revs, k as int, sorted_array_size as int);
            }
            if rows_le_prefix(hs, ks, k as int, revs, sorted_array_size as int) {
                lemma_rows_split_count(hs, ks, k as int, revs, sorted_array_size as int, found as int);
            }
        }
        results.push(found as u64);
        k = k + 1;
    }
    Ok(results)
}

} // verus!
