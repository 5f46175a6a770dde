//! A fixed-capacity queue that, once full, drops its oldest item to make room.

use vstd::prelude::*;

verus! {

/// A queue of at most `N` items in a circular buffer; `start` is the oldest.
pub struct RingBuf<T, const N: usize> {
    arr: Vec<Option<T>>,
    start: usize,
    len: usize,
}

impl<T, const N: usize> RingBuf<T, N> {
    /// The slot of the `i`-th oldest item.
    pub closed spec fn slot(&self, i: int) -> int {
        (self.start + i) % (N as int)
    }

    pub closed spec fn wf(&self) -> bool {
        &&& self.arr@.len() == N
        &&& self.len <= N
        &&& (N > 0 ==> self.start < N)
        &&& forall|i: int| 0 <= i < self.len ==> (#[trigger] self.arr@[self.slot(i)]) is Some
    }

    /// The items, oldest first.
    pub closed spec fn items(&self) -> Seq<T> {
        Seq::new(self.len as nat, |i: int| self.arr@[self.slot(i)]->Some_0)
    }

    pub open spec fn capacity(&self) -> nat {
        N as nat
    }

    /// An empty queue.
    pub fn new() -> (r: RingBuf<T, N>)
        ensures
            r.wf(),
            r.items() == Seq::<T>::empty(),
    {
        let mut arr: Vec<Option<T>> = Vec::new();
        let mut i: usize = 0;
        while i < N
            invariant
                i <= N,
                arr@.len() == i,
            decreases N - i,
        {
            arr.push(None);
            i = i + 1;
        }
        let r = RingBuf { arr, start: 0, len: 0 };
        proof {
            assert(r.items() =~= Seq::<T>::empty());
        }
        r
    }

    /// Appends `val`; when the queue is full the oldest item is dropped.
    pub fn push(&mut self, val: T)
        requires
            old(self).wf(),
            N > 0,
        ensures
            final(self).wf(),
            final(self).items() == if old(self).items().len() == N {
                old(self).items().drop_first().push(val)
            } else {
                old(self).items().push(val)
            },
    {
        if self.len == N {
            let ghost before = self.items();
            self.arr.set(self.start, Some(val));
            self.start = (self.start + 1) % N;
            proof {
                assert forall|i: int| 0 <= i < self.len implies (#[trigger] self.arr@[self.slot(i)]) is Some by {
                    if i < self.len - 1 {
                        assert(self.slot(i) == old(self).slot(i + 1)) by {
                            lemma_slot_shift(old(self).start as int, i, N as int);
                        }
                    } else {
                        assert(self.slot(i) == old(self).start) by {
                            lemma_slot_wrap(old(self).start as int, i, N as int);
                        }
                    }
                }
                assert forall|i: int| 0 <= i < self.len implies #[trigger] self.items()[i] == before.drop_first().push(val)[i] by {
                    if i < self.len - 1 {
                        lemma_slot_shift(old(self).start as int, i, N as int);
                        assert(self.slot(i) == old(self).slot(i + 1));
                        assert(old(self).slot(i + 1) != old(self).start) by {
                            lemma_slot_distinct(old(self).start as int, i + 1, N as int);
                        }
                    } else {
                        lemma_slot_wrap(old(self).start as int, i, N as int);
                    }
                }
                assert(self.items() =~= before.drop_first().push(val));
            }
        } else {
            let end = if self.len < N - self.start {
                self.start + self.len
            } else {
                self.len - (N - self.start)
            };
            proof {
                lemma_mod_small(self.start as int + self.len as int, N as int);
            }
            let ghost before = self.items();
            self.arr.set(end, Some(val));
            self.len = self.len + 1;
            proof {
                assert(end == old(self).slot(old(self).len as int));
                assert forall|i: int| 0 <= i < self.len implies (#[trigger] self.arr@[self.slot(i)]) is Some by {
                    assert(self.slot(i) == old(self).slot(i));
                    if i < old(self).len {
                        lemma_slot_ne(old(self).start as int, i, old(self).len as int, N as int);
                        assert(old(self).arr@[old(self).slot(i)] is Some);
                    }
                }
                assert forall|i: int| 0 <= i < self.len implies #[trigger] self.items()[i] == before.push(val)[i] by {
                    if i < old(self).len {
                        lemma_slot_ne(old(self).start as int, i, old(self).len as int, N as int);
                    }
                }
                assert(self.items() =~= before.push(val));
            }
        }
    }

    /// Removes and returns the oldest item.
    pub fn pop(&mut self) -> (r: Option<T>)
        requires
            old(self).wf(),
        ensures
            final(self).wf(),
            old(self).items().len() == 0 ==> r is None && final(self).items() == old(self).items(),
            old(self).items().len() > 0 ==> r == Some(old(self).items()[0]) && final(self).items()
                == old(self).items().drop_first(),
    {
        if self.len == 0 {
            return None;
        }
        let ghost before = self.items();
        let s = self.start;
        let v = self.arr[s].take();
        self.start = (self.start + 1) % N;
        self.len = self.len - 1;
        proof {
            assert(old(self).slot(0) == s) by {
                lemma_slot_wrap(s as int, 0, N as int);
            }
            assert forall|i: int| 0 <= i < self.len implies (#[trigger] self.arr@[self.slot(i)]) is Some by {
                lemma_slot_shift(s as int, i, N as int);
                lemma_slot_distinct(s as int, i + 1, N as int);
                assert(self.slot(i) == old(self).slot(i + 1));
            }
            assert forall|i: int| 0 <= i < self.len implies #[trigger] self.items()[i] == before.drop_first()[i] by {
                lemma_slot_shift(s as int, i, N as int);
                lemma_slot_distinct(s as int, i + 1, N as int);
                assert(self.slot(i) == old(self).slot(i + 1));
            }
            assert(self.items() =~= before.drop_first());
        }
        v
    }

    /// The number of items held.
    pub fn len(&self) -> (r: usize)
        requires
            self.wf(),
        ensures
            r == self.items().len(),
            r <= N,
    {
        self.len
    }

    /// A queue never holds more than its capacity: pushing onto a full one
    /// drops the oldest item.
    pub proof fn lemma_len_bounded(&self)
        requires
            self.wf(),
        ensures
            self.items().len() <= N,
    {
    }

    /// Appends each byte of `vals` in order, as repeated pushes do.
    pub fn extend(&mut self, vals: &[T])
        where
            T: Copy,
        requires
            old(self).wf(),
            N > 0,
        ensures
            final(self).wf(),
            final(self).items() == push_all(old(self).items(), vals@, N as nat),
    {
        let mut i: usize = 0;
        while i < vals.len()
            invariant
                self.wf(),
                N > 0,
                i <= vals@.len(),
                self.items() == push_all(old(self).items(), vals@.subrange(0, i as int), N as nat),
            decreases vals@.len() - i,
        {
            proof {
                assert(vals@.subrange(0, i + 1).drop_last() =~= vals@.subrange(0, i as int));
            }
            self.push(vals[i]);
            i = i + 1;
        }
        proof {
            assert(vals@.subrange(0, vals@.len() as int) =~= vals@);
        }
    }
}

/// The queue `q` after pushing `vals` in order into a buffer of capacity `n`.
pub open spec fn push_all<T>(q: Seq<T>, vals: Seq<T>, n: nat) -> Seq<T>
    decreases vals.len(),
{
    if vals.len() == 0 {
        q
    } else {
        let before = push_all(q, vals.drop_last(), n);
        if before.len() == n {
            before.drop_first().push(vals.last())
        } else {
            before.push(vals.last())
        }
    }
}

/// The queue after any pushes holds the last `n` of all the items, oldest first:
/// the items pushed beyond the capacity drop the oldest ones.
pub proof fn lemma_push_all_keeps_last<T>(q: Seq<T>, vals: Seq<T>, n: nat)
    requires
        q.len() <= n,
        n > 0,
    ensures
        push_all(q, vals, n) == (q + vals).subrange(
            if (q + vals).len() > n { (q + vals).len() - n } else { 0 },
            (q + vals).len() as int,
        ),
    decreases vals.len(),
{
    let all = q + vals;
    let lo = if all.len() > n { all.len() - n } else { 0 };
    if vals.len() == 0 {
        assert(all =~= q);
        assert(all.subrange(0, all.len() as int) =~= q);
    } else {
        let init = vals.drop_last();
        lemma_push_all_keeps_last(q, init, n);
        let all0 = q + init;
        let lo0 = if all0.len() > n { all0.len() - n } else { 0 };
        let before = push_all(q, init, n);
        assert(before == all0.subrange(lo0, all0.len() as int));
        assert(all0 =~= all.drop_last());
        if before.len() == n {
            assert(before.drop_first().push(vals.last()) =~= all.subrange(lo, all.len() as int));
        } else {
            assert(before.push(vals.last()) =~= all.subrange(lo, all.len() as int));
        }
    }
}

proof fn lemma_mod_small(x: int, n: int)
    requires
        0 <= x < 2 * n,
    ensures
        x < n ==> x % n == x,
        x >= n ==> x % n == x - n,
{
    if x < n {
        assert(x % n == x) by (nonlinear_arith)
            requires
                0 <= x < n,
        ;
    } else {
        assert(x % n == x - n) by (nonlinear_arith)
            requires
                n <= x < 2 * n,
        ;
    }
}

proof fn lemma_slot_shift(s: int, i: int, n: int)
    requires
        0 <= s < n,
        0 <= i,
    ensures
        ((s + 1) % n + i) % n == (s + (i + 1)) % n,
{
    if s + 1 < n {
        assert((s + 1) % n == s + 1) by (nonlinear_arith)
            requires
                0 <= s + 1 < n,
        ;
    } else {
        assert((s + 1) % n == 0) by (nonlinear_arith)
            requires
                s + 1 == n,
                n > 0,
        ;
        assert((s + (i + 1)) % n == i % n) by (nonlinear_arith)
            requires
                s + 1 == n,
                n > 0,
                i >= 0,
        ;
    }
}

proof fn lemma_slot_wrap(s: int, i: int, n: int)
    requires
        0 <= s < n,
        i == 0 || i == n - 1,
    ensures
        i == 0 ==> (s + i) % n == s,
        i == n - 1 ==> ((s + 1) % n + i) % n == s,
{
    assert(s % n == s) by (nonlinear_arith)
        requires
            0 <= s < n,
    ;
    if i == n - 1 {
        lemma_slot_shift(s, i, n);
        assert((s + n) % n == s) by (nonlinear_arith)
            requires
                0 <= s < n,
        ;
    }
}

proof fn lemma_slot_distinct(s: int, j: int, n: int)
    requires
        0 <= s < n,
        0 < j < n,
    ensures
        (s + j) % n != s,
{
    assert((s + j) % n != s) by (nonlinear_arith)
        requires
            0 <= s < n,
            0 < j < n,
    ;
}

proof fn lemma_slot_ne(s: int, i: int, k: int, n: int)
    requires
        0 <= s < n,
        0 <= i < k,
        k < n,
    ensures
        (s + i) % n != (s + k) % n,
{
    assert((s + i) % n != (s + k) % n) by (nonlinear_arith)
        requires
            0 <= s < n,
            0 <= i < k,
            k < n,
    ;
}

} // verus!
