//! A total order on top of a partial one.

use vstd::prelude::*;
use vstd::std_specs::cmp::{PartialOrdSpec, PartialEqSpec};
use std::cmp::Ordering;

verus! {

/// Compare two values, forcing the incomparable cases into a total
/// order: a value that does not even equal itself — the not-a-number
/// pattern — sorts below everything, any other incomparable pair above.
pub fn less_than_nan<T>(a: T, b: T) -> (r: Ordering) where T: PartialOrd + Copy
    ensures
        T::obeys_partial_cmp_spec() && T::obeys_eq_spec() ==> r == (
        match a.partial_cmp_spec(&b) {
            Some(o) => o,
            None => if !a.eq_spec(&a) {
                Ordering::Less
            } else {
                Ordering::Greater
            },
        }),
{
    match a.partial_cmp(&b) {
        Some(ord) => ord,
        None => {
            if a != a {
                Ordering::Less
            } else {
                Ordering::Greater
            }
        },
    }
}

} // verus!
