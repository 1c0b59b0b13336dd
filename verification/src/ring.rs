//! A fixed-capacity ring buffer of samples.
//!
//! The buffer owns a contiguous store of the most recent `capacity` samples.
//! Pushing a new sample evicts the oldest one; the capacity never changes
//! after construction and no push or read allocates. The view is the held
//! samples ordered oldest first, so a push drops the head of the view and
//! appends the new sample at the back.

use vstd::prelude::*;

verus! {

pub struct RingBuffer {
    pub data: Vec<i64>,
    /// Index of the oldest sample in `data`; wraps around.
    pub first: usize,
}

impl RingBuffer {
    /// Basic shape: a nonempty store with the wrap index inside it.
    pub open spec fn wf(self) -> bool {
        &&& self.data@.len() >= 1
        &&& self.first < self.data@.len()
    }

    /// Capacity fixed at construction.
    pub open spec fn capacity(self) -> nat {
        self.data@.len()
    }

    /// The held samples, oldest first.
    pub open spec fn contents(self) -> Seq<int> {
        Seq::new(
            self.data@.len(),
            |i: int| self.data@[((self.first + i) % (self.data@.len() as int))] as int,
        )
    }

    /// A buffer of `capacity` samples, all holding `fill`.
    pub fn new(capacity: usize, fill: i64) -> (r: RingBuffer)
        requires
            capacity >= 1,
        ensures
            r.wf(),
            r.capacity() == capacity,
            r.contents() == Seq::new(capacity as nat, |i: int| fill as int),
    {
        let mut data: Vec<i64> = Vec::new();
        let mut k: usize = 0;
        while k < capacity
            invariant
                k <= capacity,
                data@.len() == k,
                forall|i: int| 0 <= i < k ==> data@[i] == fill,
            decreases capacity - k,
        {
            data.push(fill);
            k = k + 1;
        }
        let r = RingBuffer { data, first: 0 };
        proof {
            assert(r.contents() =~= Seq::new(capacity as nat, |i: int| fill as int)) by {
                assert forall|i: int| 0 <= i < capacity implies r.contents()[i] == fill as int by {
                    vstd::arithmetic::div_mod::lemma_small_mod(i as nat, capacity as nat);
                }
            }
        }
        r
    }

    /// Number of samples held; always equal to the capacity.
    pub fn len(&self) -> (n: usize)
        requires
            self.wf(),
        ensures
            n == self.capacity(),
    {
        self.data.len()
    }

    /// Read the sample at position `i` of the view (0 is the oldest).
    pub fn get(&self, i: usize) -> (r: i64)
        requires
            self.wf(),
            i < self.capacity(),
        ensures
            r as int == self.contents()[i as int],
    {
        let n = self.data.len();
        let j = if i < n - self.first {
            self.first + i
        } else {
            i - (n - self.first)
        };
        proof {
            let len = self.data@.len() as int;
            if i < len - self.first {
                vstd::arithmetic::div_mod::lemma_small_mod((self.first + i) as nat, len as nat);
            } else {
                assert(self.first + i == len + j);
                vstd::arithmetic::div_mod::lemma_mod_add_multiples_vanish(j as int, len);
                vstd::arithmetic::div_mod::lemma_small_mod(j as nat, len as nat);
            }
        }
        self.data[j]
    }

    /// Push a sample, evicting the oldest: the view drops its head and
    /// gains `x` at the back. Allocation-free and O(1).
    pub fn push(&mut self, x: i64)
        requires
            old(self).wf(),
        ensures
            final(self).wf(),
            final(self).capacity() == old(self).capacity(),
            final(self).contents() == old(self).contents().subrange(
                1,
                old(self).capacity() as int,
            ).push(x as int),
    {
        let n = self.data.len();
        self.data[self.first] = x;
        self.first = if self.first + 1 == n {
            0
        } else {
            self.first + 1
        };
        proof {
            let len = self.data@.len() as int;
            let oldc = old(self).contents();
            let newc = self.contents();
            assert forall|i: int| 0 <= i < len implies newc[i] == oldc.subrange(1, len).push(
                x as int,
            )[i] by {
                let f0 = old(self).first as int;
                if i < len - 1 {
                    // newc[i] reads old position i + 1.
                    assert((self.first + i) % len == (f0 + (i + 1)) % len) by {
                        if f0 + 1 == len {
                            vstd::arithmetic::div_mod::lemma_mod_add_multiples_vanish(
                                (i as int),
                                len,
                            );
                            vstd::arithmetic::div_mod::lemma_small_mod(i as nat, len as nat);
                        }
                    }
                    assert((f0 + (i + 1)) % len < len && (f0 + (i + 1)) % len >= 0) by {
                        vstd::arithmetic::div_mod::lemma_mod_bound(f0 + i + 1, len);
                    }
                    assert((f0 + (i + 1)) % len != f0) by {
                        if (f0 + (i + 1)) % len == f0 {
                            vstd::arithmetic::div_mod::lemma_mod_add_multiples_vanish(
                                f0 + i + 1 - len,
                                len,
                            );
                            vstd::arithmetic::div_mod::lemma_small_mod(f0 as nat, len as nat);
                            if i + 1 < len - f0 {
                                vstd::arithmetic::div_mod::lemma_small_mod(
                                    (f0 + i + 1) as nat,
                                    len as nat,
                                );
                            } else {
                                vstd::arithmetic::div_mod::lemma_small_mod(
                                    (f0 + i + 1 - len) as nat,
                                    len as nat,
                                );
                            }
                        }
                    }
                } else {
                    // newc[len - 1] is the slot just written.
                    assert((self.first + i) % len == f0) by {
                        if f0 + 1 == len {
                            vstd::arithmetic::div_mod::lemma_small_mod(f0 as nat, len as nat);
                        } else {
                            vstd::arithmetic::div_mod::lemma_mod_add_multiples_vanish(f0, len);
                            vstd::arithmetic::div_mod::lemma_small_mod(f0 as nat, len as nat);
                        }
                    }
                }
            }
            assert(newc =~= oldc.subrange(1, len).push(x as int));
        }
    }
}

} // verus!
