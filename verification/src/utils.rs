//! Small helpers on ordered values.

use vstd::prelude::*;
use vstd::std_specs::cmp::PartialOrdIs;
use vstd::std_specs::cmp::PartialOrdSpec;

verus! {

/// The smaller of two values; `right` when neither is smaller.
pub fn min<T: Ord>(left: T, right: T) -> (res: T)
    ensures
        res == left || res == right,
        T::obeys_partial_cmp_spec() ==> res == if left.is_lt(&right) {
            left
        } else {
            right
        },
{
    if left < right {
        left
    } else {
        right
    }
}

/// The larger of two values; `right` when neither is larger.
pub fn max<T: Ord>(left: T, right: T) -> (res: T)
    ensures
        res == left || res == right,
        T::obeys_partial_cmp_spec() ==> res == if left.is_gt(&right) {
            left
        } else {
            right
        },
{
    if left > right {
        left
    } else {
        right
    }
}

} // verus!
