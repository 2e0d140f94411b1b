//! The order in which work that is left to do goes down.
use vstd::prelude::*;

verus! {

/// `a` comes before `b`: the first numbers that differ do so downwards.
pub open spec fn lower_at(a: Seq<int>, b: Seq<int>, i: int) -> bool {
    &&& 0 <= i < a.len()
    &&& i < b.len()
    &&& forall|j: int| 0 <= j < i ==> a[j] == b[j]
    &&& 0 <= a[i] < b[i]
}

/// `a` comes before `b` in the order of their first differing numbers.
pub open spec fn lower(a: Seq<int>, b: Seq<int>) -> bool {
    exists|i: int| lower_at(a, b, i)
}

} // verus!
