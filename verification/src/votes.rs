//! Tallying ballots by name.

use vstd::prelude::*;

verus! {

/// How often `name` occurs among the first `n` ballots.
pub open spec fn occurrences(ballots: Seq<Seq<char>>, name: Seq<char>, n: int) -> nat
    recommends
        0 <= n <= ballots.len(),
    decreases n,
{
    if n <= 0 {
        0
    } else {
        occurrences(ballots, name, n - 1) + if ballots[n - 1] == name {
            1nat
        } else {
            0nat
        }
    }
}

/// A tally never exceeds the number of ballots looked at.
proof fn lemma_occurrences_le(ballots: Seq<Seq<char>>, name: Seq<char>, n: int)
    requires
        0 <= n,
    ensures
        occurrences(ballots, name, n) <= n,
    decreases n,
{
    if n > 0 {
        lemma_occurrences_le(ballots, name, n - 1);
    }
}

/// `name` has an entry in the tally.
pub open spec fn tallied(tally: Seq<(String, usize)>, name: Seq<char>) -> bool {
    exists|i: int| 0 <= i < tally.len() && (#[trigger] tally[i]).0@ == name
}

/// Count the ballots cast for each name.  Each name that appears on a
/// ballot appears exactly once in the tally, paired with the number of
/// ballots carrying it; no other name appears.
pub fn count_votes(ballots: &Vec<String>) -> (tally: Vec<(String, usize)>)
    ensures
        forall|i: int, j: int|
            0 <= i < j < tally@.len() ==> (#[trigger] tally@[i]).0@ != (#[trigger] tally@[j]).0@,
        forall|i: int|
            0 <= i < tally@.len() ==> (#[trigger] tally@[i]).1 == occurrences(
                ballots.deep_view(),
                tally@[i].0@,
                ballots@.len() as int,
            ) && tally@[i].1 > 0,
        forall|b: int| 0 <= b < ballots@.len() ==> tallied(tally@, (#[trigger] ballots@[b])@),
{
    let ghost names = ballots.deep_view();
    let mut tally: Vec<(String, usize)> = Vec::new();
    let mut n: usize = 0;
    while n < ballots.len()
        invariant
            n <= ballots@.len(),
            names == ballots.deep_view(),
            names.len() == ballots@.len(),
            forall|j: int| 0 <= j < ballots@.len() ==> names[j] == (#[trigger] ballots@[j])@,
            forall|i: int, j: int|
                0 <= i < j < tally@.len() ==> (#[trigger] tally@[i]).0@ != (
                #[trigger] tally@[j]).0@,
            forall|i: int|
                0 <= i < tally@.len() ==> (#[trigger] tally@[i]).1 == occurrences(
                    names,
                    tally@[i].0@,
                    n as int,
                ) && tally@[i].1 > 0,
            forall|b: int| 0 <= b < n ==> tallied(tally@, #[trigger] names[b]),
        decreases ballots@.len() - n,
    {
        let name = &ballots[n];
        let mut found = false;
        let mut i: usize = 0;
        while i < tally.len() && !found
            invariant
                i <= tally@.len(),
                !found ==> forall|k: int| 0 <= k < i ==> (#[trigger] tally@[k]).0@ != name@,
                found ==> i < tally@.len() && tally@[i as int].0@ == name@,
            decreases tally@.len() - i + if found {
                0int
            } else {
                1int
            },
        {
            if tally[i].0.eq(name) {
                found = true;
            } else {
                i = i + 1;
            }
        }
        let ghost tally_before = tally@;
        if found {
            let count = tally[i].1;
            proof {
                lemma_occurrences_le(names, tally@[i as int].0@, n as int);
            }
            let fresh_name = tally[i].0.clone();
            tally.set(i, (fresh_name, count + 1));
        } else {
            tally.push((name.clone(), 1));
        }
        proof {
            assert forall|b: int| 0 <= b < n + 1 implies tallied(tally@, #[trigger] names[b]) by {
                if b < n {
                    assert(tallied(tally_before, names[b]));
                    let j = choose|j: int|
                        0 <= j < tally_before.len() && (#[trigger] tally_before[j]).0@ == names[b];
                    assert(tally@[j].0@ == names[b]);
                } else {
                    if found {
                        assert(tally@[i as int].0@ == names[b]);
                    } else {
                        assert(tally@[tally@.len() - 1].0@ == names[b]);
                    }
                }
            }
            assert forall|ii: int|
                0 <= ii < tally@.len() implies (#[trigger] tally@[ii]).1 == occurrences(
                names,
                tally@[ii].0@,
                n + 1,
            ) && tally@[ii].1 > 0 by {
                assert(occurrences(names, tally@[ii].0@, n + 1) == occurrences(
                    names,
                    tally@[ii].0@,
                    n as int,
                ) + if names[n as int] == tally@[ii].0@ {
                    1nat
                } else {
                    0nat
                });
                if found {
                    if ii != i {
                        assert(tally@[ii] == tally_before[ii]);
                        assert(tally@[ii].0@ != names[n as int]);
                    }
                } else {
                    if ii < tally@.len() - 1 {
                        assert(tally@[ii] == tally_before[ii]);
                        assert(tally@[ii].0@ != names[n as int]);
                    } else {
                        assert(occurrences(names, tally@[ii].0@, n as int) == 0) by {
                            lemma_occurrences_zero(names, tally@[ii].0@, n as int, tally_before);
                        }
                    }
                }
            }
        }
        n = n + 1;
    }
    tally
}

/// A name that no tallied entry carries was never seen: among the first
/// `n` ballots every name is in the tally, so a name absent from the
/// tally has no occurrences there.
proof fn lemma_occurrences_zero(
    names: Seq<Seq<char>>,
    name: Seq<char>,
    n: int,
    tally: Seq<(String, usize)>,
)
    requires
        0 <= n,
        forall|b: int| 0 <= b < n ==> tallied(tally, #[trigger] names[b]),
        forall|i: int| 0 <= i < tally.len() ==> (#[trigger] tally[i]).0@ != name,
    ensures
        occurrences(names, name, n) == 0,
    decreases n,
{
    if n > 0 {
        lemma_occurrences_zero(names, name, n - 1, tally);
        if names[n - 1] == name {
            assert(tallied(tally, names[n - 1]));
            let i = choose|i: int|
                0 <= i < tally.len() && (#[trigger] tally[i]).0@ == names[n - 1];
            assert(tally[i].0@ != name);
        }
    }
}

} // verus!
