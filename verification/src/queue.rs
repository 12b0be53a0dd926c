//! A first-in first-out queue over a pair of stacks.
//!
//! Elements are pushed onto one vector and popped from the other; when
//! the out-side runs dry the in-side is carried over in reverse.  The
//! queue's contents, front first, are the reverse of the out-side
//! followed by the in-side.

use vstd::prelude::*;

verus! {

/// A first-in first-out queue.
pub struct Queue<T> {
    older: Vec<T>,  // holds the front of the queue, eldest last
    younger: Vec<T>,  // holds the back of the queue, youngest last
}

impl<T> View for Queue<T> {
    type V = Seq<T>;

    closed spec fn view(&self) -> Seq<T> {
        self.older@.reverse() + self.younger@
    }
}

impl<T> Queue<T> {
    /// The out-side of the queue: the front elements, eldest last.
    pub closed spec fn front_side(&self) -> Seq<T> {
        self.older@
    }

    /// The in-side of the queue: the back elements, youngest last.
    pub closed spec fn back_side(&self) -> Seq<T> {
        self.younger@
    }

    /// Create an empty queue.
    pub fn new() -> (q: Queue<T>)
        ensures
            q@ == Seq::<T>::empty(),
    {
        let q = Queue { older: Vec::new(), younger: Vec::new() };
        proof {
            assert(q@ =~= Seq::<T>::empty());
        }
        q
    }

    /// Push an element onto the back of the queue.
    pub fn push(&mut self, c: T)
        ensures
            final(self)@ == old(self)@.push(c),
    {
        self.younger.push(c);
        proof {
            assert(self@ =~= old(self)@.push(c));
        }
    }

    /// Whether the queue holds nothing.
    pub fn is_empty(&self) -> (e: bool)
        ensures
            e <==> self@.len() == 0,
    {
        self.older.len() == 0 && self.younger.len() == 0
    }

    /// Pop the element at the front of the queue, if there is one: the
    /// eldest element leaves first, and the rest keep their order.
    pub fn pop(&mut self) -> (r: Option<T>)
        ensures
            old(self)@.len() == 0 ==> r is None && final(self)@ == old(self)@,
            old(self)@.len() > 0 ==> r == Some(old(self)@[0]) && final(self)@ == old(
                self,
            )@.drop_first(),
    {
        if self.older.len() == 0 {
            if self.younger.len() == 0 {
                proof {
                    assert(self@ =~= old(self)@);
                }
                return None;
            }
            // Carry the in-side over to the out-side, reversing it so
            // that the eldest element ends up on top.
            let ghost carried = self.younger@;
            while self.younger.len() > 0
                invariant
                    self.younger@.len() <= carried.len(),
                    self.older@ =~= carried.skip(self.younger@.len() as int).reverse(),
                    self.younger@ =~= carried.take(self.younger@.len() as int),
                decreases self.younger@.len(),
            {
                let ghost j = self.younger@.len() as int;
                match self.younger.pop() {
                    Some(x) => {
                        proof {
                            assert(carried.take(j).last() == carried[j - 1]);
                            assert(carried.take(j).drop_last() =~= carried.take(j - 1));
                        }
                        self.older.push(x);
                        proof {
                            assert(carried.skip(j - 1) =~= seq![carried[j - 1]] + carried.skip(j));
                            assert(carried.skip(j - 1).reverse() =~= carried.skip(
                                j,
                            ).reverse().push(carried[j - 1]));
                        }
                    },
                    None => {
                        proof {
                            assert(false);
                        }
                    },
                }
            }
            proof {
                assert(carried.skip(0) =~= carried);
                assert(self.older@ =~= carried.reverse());
                assert(self.older@.reverse() =~= carried);
                assert(old(self)@ =~= carried);
            }
        }
        let ghost front = self.older@;
        let ghost back = self.younger@;
        let n = self.older.len();
        proof {
            assert(n > 0);
            assert(old(self)@ =~= front.reverse() + back);
            assert(front.reverse()[0] == front[n - 1]);
        }
        let r = self.older.pop();
        proof {
            assert(self.older@ =~= front.drop_last());
            assert(r == Some(front[n - 1]));
            assert(old(self)@[0] == front[n - 1]);
            assert(self@ =~= old(self)@.drop_first()) by {
                assert forall|k: int| 0 <= k < old(self)@.len() - 1 implies old(
                    self,
                )@.drop_first()[k] == self@[k] by {
                    if k + 1 < n {
                        assert(old(self)@[k + 1] == front.reverse()[k + 1]);
                        assert(front.reverse()[k + 1] == front[n - 2 - k]);
                        assert(self@[k] == front.drop_last().reverse()[k]);
                        assert(front.drop_last().reverse()[k] == front.drop_last()[n - 2 - k]);
                    } else {
                        assert(old(self)@[k + 1] == back[k + 1 - n]);
                        assert(self@[k] == back[k - (n - 1)]);
                    }
                }
            }
        }
        r
    }

    /// Take the queue apart into its two sides: the reverse of the first
    /// vector followed by the second is the queue's contents.
    pub fn split(self) -> (r: (Vec<T>, Vec<T>))
        ensures
            r.0@ == self.front_side(),
            r.1@ == self.back_side(),
            r.0@.reverse() + r.1@ == self@,
    {
        (self.older, self.younger)
    }
}

} // verus!
