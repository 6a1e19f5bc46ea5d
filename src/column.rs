//! A column: a sequence of values of one kind, each present or null.
use vstd::prelude::*;

use crate::order::{cell_le, SortKey};

verus! {

/// Values in a contiguous buffer, with an optional validity flag per row
/// (`true` for present). Without validity every row is present. The value
/// stored at a null row is ignored.
pub struct Column<T> {
    pub values: Vec<T>,
    pub validity: Option<Vec<bool>>,
}

impl<T> View for Column<T> {
    type V = Seq<Option<T>>;

    open spec fn view(&self) -> Seq<Option<T>> {
        Seq::new(self.values@.len(), |i: int| self.cell(i))
    }
}

impl<T> Column<T> {
    /// The validity flags, where present, cover every row.
    pub open spec fn wf(&self) -> bool {
        match self.validity {
            Some(v) => v@.len() == self.values@.len(),
            None => true,
        }
    }

    pub open spec fn present(&self, i: int) -> bool {
        match self.validity {
            Some(v) => v@[i],
            None => true,
        }
    }

    pub open spec fn cell(&self, i: int) -> Option<T> {
        if self.present(i) {
            Some(self.values@[i])
        } else {
            None
        }
    }

    /// A column whose rows are all present.
    pub fn new(values: Vec<T>) -> (r: Self)
        ensures
            r.wf(),
            r@ == values@.map_values(|v: T| Some(v)),
    {
        let r = Column { values, validity: None };
        assert(r@ =~= r.values@.map_values(|v: T| Some(v)));
        r
    }

    /// A column with a validity flag per row.
    pub fn with_validity(values: Vec<T>, validity: Vec<bool>) -> (r: Self)
        requires
            validity@.len() == values@.len(),
        ensures
            r.wf(),
            r@.len() == values@.len(),
            forall|i: int|
                0 <= i < values@.len() ==> #[trigger] r@[i] == (if validity@[i] {
                    Some(values@[i])
                } else {
                    None
                }),
    {
        Column { values, validity: Some(validity) }
    }

    pub fn len(&self) -> (r: usize)
        ensures
            r == self@.len(),
    {
        self.values.len()
    }

    pub fn is_valid(&self, i: usize) -> (r: bool)
        requires
            self.wf(),
            i < self@.len(),
        ensures
            r == self@[i as int] is Some,
    {
        match &self.validity {
            Some(v) => v[i],
            None => true,
        }
    }
}

/// Compares row `i` of `a` with row `j` of `b` in the order of `cell_le`.
pub fn cell_le_at<T: SortKey>(a: &Column<T>, i: usize, b: &Column<T>, j: usize, reversed: bool) -> (r:
    bool)
    requires
        a.wf(),
        b.wf(),
        i < a@.len(),
        j < b@.len(),
    ensures
        r == cell_le(a@[i as int], b@[j as int], reversed),
{
    let a_valid = a.is_valid(i);
    let b_valid = b.is_valid(j);
    if a_valid && b_valid {
        if reversed {
            b.values[j].le(&a.values[i])
        } else {
            a.values[i].le(&b.values[j])
        }
    } else if a_valid {
        !reversed
    } else if b_valid {
        reversed
    } else {
        true
    }
}

} // verus!
