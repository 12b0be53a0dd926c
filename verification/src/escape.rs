//! The decision logic of the escape-time evaluation.
//!
//! The numeric orbit itself — `z` going to `z * z + point` in
//! double-precision arithmetic — runs outside this library; what is
//! decided from it lives here.  After iteration `i` of the map the caller
//! learns whether the orbit has left the escape radius, and this module
//! decides whether the search stops with the 0-indexed count `i`, goes
//! on, or gives the point up as inside the set once the iteration limit
//! is reached.  The authoritative semantics is the straightforward one:
//! the result is the first iteration whose sample exceeds the bound.

use vstd::prelude::*;

verus! {

/// What the escape search decides after one more iteration of the map.
#[derive(Clone, Copy, Debug, PartialEq, Eq, Structural)]
pub enum EscapeStep {
    /// The orbit left the escape radius; the payload is the 0-indexed
    /// iteration at which that happened.
    Escaped(u32),
    /// The bound is not exceeded and iterations remain: apply the map
    /// once more.
    Continue,
    /// The limit is reached without escape: the point is presumed inside
    /// the stable set.
    Inside,
}

/// The index of the first `true` in a sequence of bound-exceeded flags,
/// if there is one.
pub open spec fn first_true(flags: Seq<bool>) -> Option<int>
    decreases flags.len(),
{
    if flags.len() == 0 {
        None
    } else if flags[0] {
        Some(0)
    } else {
        match first_true(flags.drop_first()) {
            None => None,
            Some(i) => Some(i + 1),
        }
    }
}

/// `first_true` finds exactly the least index holding `true`.
pub proof fn lemma_first_true_char(flags: Seq<bool>)
    ensures
        first_true(flags) is None <==> (forall|j: int| 0 <= j < flags.len() ==> !flags[j]),
        first_true(flags) matches Some(i) ==> 0 <= i < flags.len() && flags[i] && (forall|j: int|
            0 <= j < i ==> !flags[j]),
    decreases flags.len(),
{
    if flags.len() == 0 {
    } else if flags[0] {
    } else {
        let rest = flags.drop_first();
        lemma_first_true_char(rest);
        assert(forall|j: int| 0 <= j < rest.len() ==> rest[j] == flags[j + 1]);
        if first_true(rest) is None {
            assert forall|j: int| 0 <= j < flags.len() implies !flags[j] by {
                if j > 0 {
                    assert(rest[j - 1] == flags[j]);
                }
            }
        } else {
            let i = first_true(rest)->Some_0;
            assert(flags[i + 1] == rest[i]);
            assert forall|j: int| 0 <= j < i + 1 implies !flags[j] by {
                if j > 0 {
                    assert(rest[j - 1] == flags[j]);
                }
            }
        }
    }
}

/// Decide one step of the escape search.  At the 0-indexed iteration `i`
/// of a search bounded by `limit`, with `exceeded` telling whether the
/// orbit now lies outside the escape radius: stop with `Escaped(i)` the
/// moment the bound is exceeded, give the point up as `Inside` when the
/// last allowed iteration passes without escape, and continue otherwise.
pub fn escape_step(i: u32, limit: u32, exceeded: bool) -> (step: EscapeStep)
    requires
        i < limit,
    ensures
        step == (if exceeded {
            EscapeStep::Escaped(i)
        } else if i + 1 == limit {
            EscapeStep::Inside
        } else {
            EscapeStep::Continue
        }),
{
    if exceeded {
        EscapeStep::Escaped(i)
    } else if i + 1 == limit {
        EscapeStep::Inside
    } else {
        EscapeStep::Continue
    }
}

/// The whole escape search over the recorded bound-exceeded flags of one
/// orbit, `flags[i]` belonging to the 0-indexed iteration `i`: the result
/// is the first iteration that exceeded the bound, or nothing when no
/// iteration did.
pub fn first_escape(flags: &Vec<bool>) -> (r: Option<u32>)
    requires
        flags@.len() <= u32::MAX,
    ensures
        r is None <==> first_true(flags@) is None,
        r matches Some(c) ==> first_true(flags@) == Some(c as int),
{
    proof {
        lemma_first_true_char(flags@);
    }
    let mut i: usize = 0;
    while i < flags.len()
        invariant
            i <= flags@.len() <= u32::MAX,
            forall|j: int| 0 <= j < i ==> !flags@[j],
            first_true(flags@) is None <==> (forall|j: int| 0 <= j < flags@.len() ==> !flags@[j]),
            first_true(flags@) matches Some(k) ==> 0 <= k < flags@.len() && flags@[k] && (
            forall|j: int| 0 <= j < k ==> !flags@[j]),
        decreases flags@.len() - i,
    {
        if flags[i] {
            proof {
                if first_true(flags@) is None {
                    assert(!flags@[i as int]);
                }
                let k = first_true(flags@)->Some_0;
                if k < i as int {
                    assert(!flags@[k]);
                }
                if k > i as int {
                    assert(!flags@[i as int]);
                }
            }
            return Some(i as u32);
        }
        i = i + 1;
    }
    None
}

/// The iterator-style search the render once carried along as an
/// alternative reads the orbit stream that starts at the origin sample —
/// which never exceeds the bound — takes the first `limit` samples, finds
/// the position of the first one past the bound, and subtracts one.
/// Wherever that search finds an escape it agrees with the
/// straightforward one; the one orbit it misses is an escape at the
/// final iteration, which it has truncated away.
pub proof fn law_stream_escape_agrees(flags: Seq<bool>, limit: int)
    requires
        flags.len() == limit,
        limit >= 1,
    ensures
        first_true(seq![false] + flags.take(limit - 1)) matches Some(p) ==> p >= 1 && first_true(
            flags,
        ) == Some(p - 1),
        first_true(flags) matches Some(i) ==> i < limit - 1 ==> first_true(
            seq![false] + flags.take(limit - 1),
        ) == Some(i + 1),
        first_true(flags) is None ==> first_true(seq![false] + flags.take(limit - 1)) is None,
{
    let head = flags.take(limit - 1);
    let stream = seq![false] + head;
    assert(stream.len() == limit);
    assert(!stream[0]);
    assert(stream.drop_first() =~= head);
    lemma_first_true_char(flags);
    lemma_first_true_char(head);
    lemma_first_true_char(stream);
    assert(forall|j: int| 0 <= j < head.len() ==> head[j] == flags[j]);
    if first_true(stream) is Some && first_true(flags) is Some {
        let p = first_true(stream)->Some_0;
        let i = first_true(flags)->Some_0;
        assert(stream[p]);
        assert(p >= 1);
        assert(head[p - 1] && flags[p - 1]);
        if i < p - 1 {
            assert(flags[i] && head[i] && stream[i + 1]);
            assert(!stream[i + 1]);
        }
        if i > p - 1 {
            assert(!flags[p - 1]);
        }
    }
    if first_true(flags) is Some {
        let i = first_true(flags)->Some_0;
        if i < limit - 1 {
            assert(flags[i] && head[i] && stream[i + 1]);
            if first_true(stream) is None {
                assert(!stream[i + 1]);
            }
        }
    }
    if first_true(flags) is None && first_true(stream) is Some {
        let p = first_true(stream)->Some_0;
        assert(stream[p]);
        assert(p >= 1);
        assert(head[p - 1]);
        assert(flags[p - 1]);
        assert(!flags[p - 1]);
    }
}

} // verus!
