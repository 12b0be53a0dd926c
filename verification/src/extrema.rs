//! Smallest and largest elements of a slice.

use vstd::prelude::*;
use vstd::slice::slice_index_get;
use vstd::std_specs::cmp::PartialOrdSpec;
use std::cmp::Ordering;

verus! {

/// A reference to the smallest element of a slice of numbers: the value
/// behind it is no larger than any element, and is itself an element.
pub fn smallest<'a>(list: &'a [i32]) -> (s: &'a i32)
    requires
        list@.len() > 0,
    ensures
        forall|j: int| 0 <= j < list@.len() ==> *s <= list@[j],
        exists|j: int| 0 <= j < list@.len() && *s == list@[j],
{
    let mut s: &i32 = slice_index_get(list, 0);
    let mut i: usize = 1;
    while i < list.len()
        invariant
            1 <= i <= list@.len(),
            forall|j: int| 0 <= j < i ==> *s <= list@[j],
            exists|j: int| 0 <= j < i && *s == list@[j],
        decreases list@.len() - i,
    {
        let r = slice_index_get(list, i);
        if *r < *s {
            s = r;
        }
        i = i + 1;
    }
    s
}

/// References to the greatest and least elements found in a slice.
#[derive(Debug)]
pub struct ExtremaRef<'elt, T> {
    pub greatest: &'elt T,
    pub least: &'elt T,
}

/// The greatest and least elements found in a slice, by value.
#[derive(Debug)]
pub struct Extrema<T> {
    pub greatest: T,
    pub least: T,
}

/// The least element a left-to-right scan of the first `n` elements
/// settles on: start at the first element and replace it whenever a
/// later element compares strictly below the current one.
pub open spec fn running_least<T: PartialOrd>(s: Seq<T>, n: int) -> T
    recommends
        1 <= n <= s.len(),
    decreases n,
{
    if n <= 1 {
        s[0]
    } else {
        let prev = running_least(s, n - 1);
        if s[n - 1].partial_cmp_spec(&prev) == Some(Ordering::Less) {
            s[n - 1]
        } else {
            prev
        }
    }
}

/// The greatest element the same scan settles on: replace whenever a
/// later element compares strictly above.
pub open spec fn running_greatest<T: PartialOrd>(s: Seq<T>, n: int) -> T
    recommends
        1 <= n <= s.len(),
    decreases n,
{
    if n <= 1 {
        s[0]
    } else {
        let prev = running_greatest(s, n - 1);
        if s[n - 1].partial_cmp_spec(&prev) == Some(Ordering::Greater) {
            s[n - 1]
        } else {
            prev
        }
    }
}

/// Find the greatest and least elements of a slice by references into
/// it.  For element types whose comparison obeys its specification the
/// result is pinned down exactly: it is what the left-to-right scan
/// settles on, which for a total order is the minimum and maximum.
pub fn find_extrema_ref<'s, T>(slice: &'s [T]) -> (r: ExtremaRef<'s, T>) where T: PartialOrd
    requires
        slice@.len() > 0,
    ensures
        T::obeys_partial_cmp_spec() ==> *r.least == running_least(slice@, slice@.len() as int)
            && *r.greatest == running_greatest(slice@, slice@.len() as int),
{
    let mut greatest: &T = slice_index_get(slice, 0);
    let mut least: &T = slice_index_get(slice, 0);
    let mut i: usize = 1;
    while i < slice.len()
        invariant
            1 <= i <= slice@.len(),
            T::obeys_partial_cmp_spec() ==> *least == running_least(slice@, i as int),
            T::obeys_partial_cmp_spec() ==> *greatest == running_greatest(slice@, i as int),
        decreases slice@.len() - i,
    {
        let elt = slice_index_get(slice, i);
        if elt.lt(least) {
            least = elt;
        }
        if elt.gt(greatest) {
            greatest = elt;
        }
        i = i + 1;
    }
    ExtremaRef::<T> { greatest, least }
}

/// Find the greatest and least elements of a slice by value, with the
/// same exact contract as the by-reference search.
pub fn find_extrema<T>(slice: &[T]) -> (r: Extrema<T>) where T: PartialOrd + Copy
    requires
        slice@.len() > 0,
    ensures
        T::obeys_partial_cmp_spec() ==> r.least == running_least(slice@, slice@.len() as int)
            && r.greatest == running_greatest(slice@, slice@.len() as int),
{
    let mut greatest: T = *slice_index_get(slice, 0);
    let mut least: T = *slice_index_get(slice, 0);
    let mut i: usize = 1;
    while i < slice.len()
        invariant
            1 <= i <= slice@.len(),
            T::obeys_partial_cmp_spec() ==> least == running_least(slice@, i as int),
            T::obeys_partial_cmp_spec() ==> greatest == running_greatest(slice@, i as int),
        decreases slice@.len() - i,
    {
        let elt = *slice_index_get(slice, i);
        if elt.lt(&least) {
            least = elt;
        }
        if elt.gt(&greatest) {
            greatest = elt;
        }
        i = i + 1;
    }
    Extrema::<T> { greatest, least }
}

/// On a totally ordered element type the scan's answers are the true
/// extrema: no element lies below the least or above the greatest, and
/// both are elements of the slice.
pub proof fn law_extrema_bounds(s: Seq<i64>, n: int)
    requires
        1 <= n <= s.len(),
    ensures
        forall|j: int| 0 <= j < n ==> running_least(s, n) <= s[j],
        exists|j: int| 0 <= j < n && running_least(s, n) == s[j],
        forall|j: int| 0 <= j < n ==> s[j] <= running_greatest(s, n),
        exists|j: int| 0 <= j < n && running_greatest(s, n) == s[j],
    decreases n,
{
    if n == 1 {
        assert(running_least(s, 1) == s[0]);
        assert(running_greatest(s, 1) == s[0]);
    } else {
        law_extrema_bounds(s, n - 1);
        let prev_l = running_least(s, n - 1);
        let prev_g = running_greatest(s, n - 1);
        if s[n - 1].partial_cmp_spec(&prev_l) == Some(Ordering::Less) {
            assert(s[n - 1] < prev_l);
        }
        if s[n - 1].partial_cmp_spec(&prev_g) == Some(Ordering::Greater) {
            assert(s[n - 1] > prev_g);
        }
    }
}

} // verus!
