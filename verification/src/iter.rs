//! Streams generated step by step: the additive two-term recurrence and
//! a hand-rolled counting range.

use vstd::prelude::*;

verus! {

/// The `k`-th term of the additive recurrence that starts with `a`
/// and `b`: each later term is the sum of the two before it.
pub open spec fn stream_val(a: nat, b: nat, k: nat) -> nat
    decreases k,
{
    if k == 0 {
        a
    } else if k == 1 {
        b
    } else {
        stream_val(a, b, (k - 2) as nat) + stream_val(a, b, (k - 1) as nat)
    }
}

/// From its second term on, the stream never decreases.
pub proof fn lemma_stream_mono(a: nat, b: nat, i: nat, j: nat)
    requires
        1 <= i <= j,
    ensures
        stream_val(a, b, i) <= stream_val(a, b, j),
    decreases j,
{
    if i < j {
        lemma_stream_mono(a, b, i, (j - 1) as nat);
    }
}

/// The terms the recurrence yields from the seed `(0, 1)`: term `k + 2`
/// at the `k`-th draw, so the first ten draws are 1, 2, 3, 5, 8, 13,
/// 21, 34, 55 and 89.
pub fn fibonacci(n: usize) -> (v: Vec<u64>)
    requires
        stream_val(0, 1, n as nat + 1) <= u64::MAX,
    ensures
        v@.len() == n,
        forall|k: int| 0 <= k < n ==> #[trigger] v@[k] == stream_val(0, 1, (k + 2) as nat),
{
    let mut state: (u64, u64) = (0, 1);
    fibonacci_mut(&mut state, n)
}

/// The same draws from a caller-supplied seed, advancing the seed in
/// place: afterwards the state holds the last two terms reached.
pub fn fibonacci_mut(state: &mut (u64, u64), n: usize) -> (v: Vec<u64>)
    requires
        stream_val(old(state).0 as nat, old(state).1 as nat, n as nat + 1) <= u64::MAX,
    ensures
        v@.len() == n,
        forall|k: int|
            0 <= k < n ==> #[trigger] v@[k] == stream_val(
                old(state).0 as nat,
                old(state).1 as nat,
                (k + 2) as nat,
            ),
        final(state).0 == stream_val(old(state).0 as nat, old(state).1 as nat, n as nat),
        final(state).1 == stream_val(old(state).0 as nat, old(state).1 as nat, n as nat + 1),
{
    let ghost a0 = old(state).0 as nat;
    let ghost b0 = old(state).1 as nat;
    let mut v: Vec<u64> = Vec::new();
    let mut i: usize = 0;
    while i < n
        invariant
            i <= n,
            stream_val(a0, b0, n as nat + 1) <= u64::MAX,
            state.0 == stream_val(a0, b0, i as nat),
            state.1 == stream_val(a0, b0, i as nat + 1),
            v@.len() == i,
            forall|k: int| 0 <= k < i ==> #[trigger] v@[k] == stream_val(a0, b0, (k + 2) as nat),
        decreases n - i,
    {
        proof {
            assert(stream_val(a0, b0, i as nat + 2) == stream_val(a0, b0, i as nat) + stream_val(
                a0,
                b0,
                i as nat + 1,
            ));
            lemma_stream_mono(a0, b0, i as nat + 2, n as nat + 1);
        }
        let next = state.0 + state.1;
        v.push(next);
        *state = (state.1, next);
        i = i + 1;
    }
    v
}

/// A half-open counting range walked by hand.
#[derive(Debug)]
pub struct MyRange {
    pub start: usize,
    pub end: usize,
}

impl MyRange {
    /// Yield the next index of the range, if one is left, and step past
    /// it.
    pub fn next(&mut self) -> (r: Option<usize>)
        ensures
            old(self).start >= old(self).end ==> r is None && *final(self) == *old(self),
            old(self).start < old(self).end ==> r == Some(old(self).start) && final(self).start
                == old(self).start + 1 && final(self).end == old(self).end,
    {
        if self.start >= self.end {
            None
        } else {
            let result = Some(self.start);
            self.start = self.start + 1;
            result
        }
    }
}

} // verus!
