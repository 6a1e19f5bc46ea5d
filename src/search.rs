//! Right-insertion search of every key of a column in one sorted column.
use vstd::prelude::*;

use crate::column::{cell_le_at, Column};
use crate::order::{cell_le, lemma_cell_total, lemma_cell_transitive, SortKey, Utf8Value};

verus! {

/// Every cell sorts at or before every later cell, in the declared direction.
pub open spec fn sorted<T: SortKey>(h: Seq<Option<T>>, reversed: bool) -> bool {
    forall|i: int, j: int| 0 <= i <= j < h.len() ==> cell_le(#[trigger] h[i], #[trigger] h[j], reversed)
}

/// How many cells of `h` sort at or before `key`: the right insertion point
/// of `key` in a sorted `h`.
pub open spec fn count_le<T: SortKey>(h: Seq<Option<T>>, key: Option<T>, reversed: bool) -> nat
    decreases h.len(),
{
    if h.len() == 0 {
        0
    } else {
        count_le(h.drop_last(), key, reversed) + if cell_le(h.last(), key, reversed) {
            1nat
        } else {
            0nat
        }
    }
}

/// What a search of `keys` in `h` returns: one index per key, within the
/// haystack, and on a sorted haystack the right insertion point of the key.
pub open spec fn search_outcome<T: SortKey>(
    h: Seq<Option<T>>,
    keys: Seq<Option<T>>,
    reversed: bool,
    r: Seq<u64>,
) -> bool {
    &&& r.len() == keys.len()
    &&& forall|k: int| 0 <= k < r.len() ==> #[trigger] r[k] <= h.len()
    &&& sorted(h, reversed) ==> forall|k: int|
        0 <= k < r.len() ==> #[trigger] r[k] == count_le(h, keys[k], reversed)
}

/// `p` splits `h` into the cells at or before `key` and those after it.
pub open spec fn splits_at<T: SortKey>(h: Seq<Option<T>>, key: Option<T>, reversed: bool, p: int) -> bool {
    &&& 0 <= p <= h.len()
    &&& forall|i: int| 0 <= i < p ==> cell_le(#[trigger] h[i], key, reversed)
    &&& forall|i: int| p <= i < h.len() ==> !cell_le(#[trigger] h[i], key, reversed)
}

proof fn lemma_split_is_count<T: SortKey>(h: Seq<Option<T>>, key: Option<T>, reversed: bool, p: int)
    requires
        splits_at(h, key, reversed, p),
    ensures
        count_le(h, key, reversed) == p,
    decreases h.len(),
{
    if h.len() > 0 {
        let t = h.drop_last();
        let n = h.len() - 1;
        assert(h.last() == h[n]);
        if p == h.len() {
            assert(cell_le(h[n], key, reversed));
            assert forall|i: int| 0 <= i < p - 1 implies cell_le(#[trigger] t[i], key, reversed) by {
                assert(t[i] == h[i]);
            }
            lemma_split_is_count(t, key, reversed, p - 1);
        } else {
            assert(!cell_le(h[n], key, reversed));
            assert forall|i: int| 0 <= i < p implies cell_le(#[trigger] t[i], key, reversed) by {
                assert(t[i] == h[i]);
            }
            assert forall|i: int| p <= i < t.len() implies !cell_le(#[trigger] t[i], key, reversed) by {
                assert(t[i] == h[i]);
            }
            lemma_split_is_count(t, key, reversed, p);
        }
    }
}

/// Bisects `[left, right)` of a column for the right insertion point of row
/// `k` of `keys`. On a sorted column, cells before `left` sorting at or before
/// the key and cells from `right` on after it hold before and after.
fn bisect<T: SortKey>(
    sorted_array: &Column<T>,
    keys: &Column<T>,
    k: usize,
    input_reversed: bool,
    left: usize,
    right: usize,
) -> (r: usize)
    requires
        sorted_array.wf(),
        keys.wf(),
        k < keys@.len(),
        left <= right <= sorted_array@.len(),
        sorted(sorted_array@, input_reversed) ==> {
            &&& forall|i: int|
                0 <= i < left ==> cell_le(#[trigger] sorted_array@[i], keys@[k as int], input_reversed)
            &&& forall|i: int|
                right <= i < sorted_array@.len() ==> !cell_le(
                    #[trigger] sorted_array@[i],
                    keys@[k as int],
                    input_reversed,
                )
        },
    ensures
        left <= r <= right,
        sorted(sorted_array@, input_reversed) ==> splits_at(
            sorted_array@,
            keys@[k as int],
            input_reversed,
            r as int,
        ),
{
    let ghost h = sorted_array@;
    let ghost key = keys@[k as int];
    let ghost rev = input_reversed;
    let mut lo = left;
    let mut hi = right;
    while lo < hi
        invariant
            sorted_array.wf(),
            keys.wf(),
            k < keys@.len(),
            h == sorted_array@,
            key == keys@[k as int],
            rev == input_reversed,
            left <= lo <= hi <= right,
            right <= h.len(),
            sorted(h, rev) ==> {
                &&& forall|i: int| 0 <= i < lo ==> cell_le(#[trigger] h[i], key, rev)
                &&& forall|i: int| hi <= i < h.len() ==> !cell_le(#[trigger] h[i], key, rev)
            },
        decreases hi - lo,
    {
        let mid = lo + (hi - lo) / 2;
        if cell_le_at(sorted_array, mid, keys, k, input_reversed) {
            proof {
                if sorted(h, rev) {
                    assert forall|i: int| 0 <= i < mid + 1 implies cell_le(#[trigger] h[i], key, rev) by {
                        if i < mid {
                            assert(cell_le(h[i], h[mid as int], rev));
                            lemma_cell_transitive(h[i], h[mid as int], key, rev);
                        }
                    }
                }
            }
            lo = mid + 1;
        } else {
            proof {
                if sorted(h, rev) {
                    assert forall|i: int| mid <= i < h.len() implies !cell_le(#[trigger] h[i], key, rev) by {
                        if i > mid && cell_le(h[i], key, rev) {
                            assert(cell_le(h[mid as int], h[i], rev));
                            lemma_cell_transitive(h[mid as int], h[i], key, rev);
                        }
                    }
                }
            }
            hi = mid;
        }
    }
    lo
}

/// Searches every key of `keys` in `sorted_array`, declared sorted ascending,
/// or descending where `input_reversed` is set. Each result is the number of
/// haystack cells at or before the key in that order, nulls counting as the
/// largest values.
///
/// Keys that arrive in order reuse the window of the key before: a key after
/// its predecessor keeps the lower bound found for it, a key at or before it
/// keeps the upper bound.
pub fn search_sorted_primitive_array<T: SortKey>(
    sorted_array: &Column<T>,
    keys: &Column<T>,
    input_reversed: bool,
) -> (r: Vec<u64>)
    requires
        sorted_array.wf(),
        keys.wf(),
    ensures
        search_outcome(sorted_array@, keys@, input_reversed, r@),
{
    let ghost h = sorted_array@;
    let ghost rev = input_reversed;
    let array_size = sorted_array.len();
    let n_keys = keys.len();
    let mut left: usize = 0;
    let mut right: usize = array_size;
    let mut results: Vec<u64> = Vec::with_capacity(n_keys);
    let mut k: usize = 0;
    while k < n_keys
        invariant
            sorted_array.wf(),
            keys.wf(),
            h == sorted_array@,
            rev == input_reversed,
            array_size == h.len(),
            n_keys == keys@.len(),
            k <= n_keys,
            left <= right <= array_size,
            k == 0 ==> left == 0 && right == array_size,
            results@.len() == k,
            forall|j: int| 0 <= j < k ==> #[trigger] results@[j] <= array_size,
            sorted(h, rev) ==> forall|j: int|
                0 <= j < k ==> #[trigger] results@[j] == count_le(h, keys@[j], rev),
            sorted(h, rev) && k > 0 ==> {
                &&& forall|i: int| 0 <= i < left ==> cell_le(#[trigger] h[i], keys@[k - 1], rev)
                &&& forall|i: int| right <= i < h.len() ==> !cell_le(#[trigger] h[i], keys@[k - 1], rev)
            },
        decreases n_keys - k,
    {
        let ghost key = keys@[k as int];
        let prev: usize = if k == 0 {
            0
        } else {
            k - 1
        };
        let is_last_key_lt = !cell_le_at(keys, k, keys, prev, input_reversed);
        proof {
            lemma_cell_total(key, key, rev);
        }
        if is_last_key_lt {
            right = array_size;
            proof {
                if sorted(h, rev) {
                    let last = keys@[prev as int];
                    lemma_cell_total(key, last, rev);
                    assert forall|i: int| 0 <= i < left implies cell_le(#[trigger] h[i], key, rev) by {
                        lemma_cell_transitive(h[i], last, key, rev);
                    }
                }
            }
        } else {
            left = 0;
            right = if right < array_size {
                right + 1
            } else {
                array_size
            };
            proof {
                if sorted(h, rev) && k > 0 {
                    let last = keys@[prev as int];
                    assert forall|i: int| right <= i < h.len() implies !cell_le(#[trigger] h[i], key, rev) by {
                        if cell_le(h[i], key, rev) {
                            lemma_cell_transitive(h[i], key, last, rev);
                        }
                    }
                }
            }
        }
        let found = bisect(sorted_array, keys, k, input_reversed, left, right);
        proof {
            if sorted(h, rev) {
                lemma_split_is_count(h, key, rev, found as int);
            }
        }
        left = found;
        right = found;
        results.push(found as u64);
        k = k + 1;
    }
    results
}

/// The search of `search_sorted_primitive_array` on string columns.
pub fn search_sorted_utf_array(
    sorted_array: &Column<Utf8Value>,
    keys: &Column<Utf8Value>,
    input_reversed: bool,
) -> (r: Vec<u64>)
    requires
        sorted_array.wf(),
        keys.wf(),
    ensures
        search_outcome(sorted_array@, keys@, input_reversed, r@),
{
    search_sorted_primitive_array(sorted_array, keys, input_reversed)
}

/// Searches every key over the whole haystack, with no window carried from
/// one key to the next.
pub fn search_sorted_full_range<T: SortKey>(
    sorted_array: &Column<T>,
    keys: &Column<T>,
    input_reversed: bool,
) -> (r: Vec<u64>)
    requires
        sorted_array.wf(),
        keys.wf(),
    ensures
        search_outcome(sorted_array@, keys@, input_reversed, r@),
{
    let ghost h = sorted_array@;
    let ghost rev = input_reversed;
    let array_size = sorted_array.len();
    let n_keys = keys.len();
    let mut results: Vec<u64> = Vec::with_capacity(n_keys);
    let mut k: usize = 0;
    while k < n_keys
        invariant
            sorted_array.wf(),
            keys.wf(),
            h == sorted_array@,
            rev == input_reversed,
            array_size == h.len(),
            n_keys == keys@.len(),
            k <= n_keys,
            results@.len() == k,
            forall|j: int| 0 <= j < k ==> #[trigger] results@[j] <= array_size,
            sorted(h, rev) ==> forall|j: int|
                0 <= j < k ==> #[trigger] results@[j] == count_le(h, keys@[j], rev),
        decreases n_keys - k,
    {
        let found = bisect(sorted_array, keys, k, input_reversed, 0, array_size);
        proof {
            if sorted(h, rev) {
                lemma_split_is_count(h, keys@[k as int], rev, found as int);
            }
        }
        results.push(found as u64);
        k = k + 1;
    }
    results
}

/// On a sorted haystack a search result is fixed by its inputs, so the
/// windowed search and the full-range search return the same indices for the
/// same haystack, keys and direction.
pub proof fn lemma_window_transparent<T: SortKey>(
    h: Seq<Option<T>>,
    keys: Seq<Option<T>>,
    reversed: bool,
    windowed: Seq<u64>,
    full: Seq<u64>,
)
    requires
        sorted(h, reversed),
        search_outcome(h, keys, reversed, windowed),
        search_outcome(h, keys, reversed, full),
    ensures
        windowed == full,
{
    assert(windowed =~= full);
}

/// A null key sorts after every cell of an ascending haystack, null or not:
/// its insertion point is the haystack's length.
pub proof fn lemma_null_key_inserts_at_end<T: SortKey>(h: Seq<Option<T>>)
    ensures
        count_le(h, None, false) == h.len(),
    decreases h.len(),
{
    if h.len() > 0 {
        lemma_null_key_inserts_at_end(h.drop_last());
    }
}

/// How many cells of `h` sort at or after `key`.
pub open spec fn count_ge<T: SortKey>(h: Seq<Option<T>>, key: Option<T>, reversed: bool) -> nat
    decreases h.len(),
{
    if h.len() == 0 {
        0
    } else {
        (if cell_le(key, h[0], reversed) {
            1nat
        } else {
            0nat
        }) + count_ge(h.drop_first(), key, reversed)
    }
}

/// The direction flag turns the comparison round, not the data: an ascending
/// haystack stored backwards is sorted under the reversed flag, and there the
/// insertion point of a key is the number of cells at or after the key in
/// ascending order.
pub proof fn lemma_reversed_storage<T: SortKey>(h: Seq<Option<T>>, key: Option<T>)
    ensures
        sorted(h, false) ==> sorted(h.reverse(), true),
        count_le(h.reverse(), key, true) == count_ge(h, key, false),
    decreases h.len(),
{
    let r = h.reverse();
    if h.len() > 0 {
        assert(r.drop_last() =~= h.drop_first().reverse());
        assert(r.last() == h[0]);
        lemma_reversed_storage(h.drop_first(), key);
    }
    if sorted(h, false) {
        assert forall|i: int, j: int| 0 <= i <= j < r.len() implies cell_le(
            #[trigger] r[i],
            #[trigger] r[j],
            true,
        ) by {
            assert(cell_le(h[h.len() - 1 - j], h[h.len() - 1 - i], false));
        }
    }
}

} // verus!
