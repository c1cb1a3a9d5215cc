//! Fixed-capacity circular sequence with O(1) append and reverse-order
//! traversal from newest to oldest retained element.
use vstd::assert_seqs_equal;
use vstd::prelude::*;

verus! {

/// The retained contents after appending `v` to ring contents `s` of
/// capacity `cap`: the sequence grows until full, then the oldest element
/// is dropped to make room.
pub open spec fn ring_push<T>(s: Seq<T>, v: T, cap: nat) -> Seq<T> {
    if s.len() < cap {
        s.push(v)
    } else {
        s.skip(1).push(v)
    }
}

/// The ring contents after pushing a whole sequence of values into an
/// initially empty ring.
pub open spec fn ring_fold<T>(vals: Seq<T>, cap: nat) -> Seq<T>
    decreases vals.len(),
{
    if vals.len() == 0 {
        Seq::empty()
    } else {
        ring_push(ring_fold(vals.drop_last(), cap), vals.last(), cap)
    }
}

/// After pushing `N` values into an empty ring of capacity `C`, exactly
/// the last `min(N, C)` of them are retained, in push order — so the
/// reverse traversal of `iter` yields them in strict reverse-push order.
pub proof fn lemma_ring_fold_contents<T>(vals: Seq<T>, cap: nat)
    requires
        cap >= 1,
    ensures
        ring_fold(vals, cap).len() == if vals.len() <= cap {
            vals.len()
        } else {
            cap
        },
        forall|k: int|
            0 <= k < ring_fold(vals, cap).len() ==> ring_fold(vals, cap)[k] == vals[vals.len()
                - ring_fold(vals, cap).len() + k],
    decreases vals.len(),
{
    if vals.len() > 0 {
        lemma_ring_fold_contents(vals.drop_last(), cap);
    }
}

/// Scalar ring holding time-of-flight values.
pub struct CircularBuffer {
    buffer: Vec<u64>,
    capacity: usize,
    head: usize,
}

impl View for CircularBuffer {
    type V = Seq<u64>;

    /// Retained elements in chronological push order, oldest first.
    closed spec fn view(&self) -> Seq<u64> {
        if self.buffer.len() < self.capacity {
            self.buffer@
        } else {
            self.buffer@.skip(self.head as int) + self.buffer@.take(self.head as int)
        }
    }
}

impl CircularBuffer {
    pub closed spec fn cap(&self) -> nat {
        self.capacity as nat
    }

    pub closed spec fn wf(&self) -> bool {
        &&& self.capacity >= 1
        &&& self.buffer.len() <= self.capacity
        &&& self.head < self.capacity
        &&& self.buffer.len() < self.capacity ==> self.head == self.buffer.len()
    }

    pub fn new(buffer_size: usize) -> (r: Self)
        requires
            buffer_size >= 1,
        ensures
            r.wf(),
            r.cap() == buffer_size,
            r@ == Seq::<u64>::empty(),
    {
        let r = Self { buffer: Vec::new(), capacity: buffer_size, head: 0 };
        proof {
            assert_seqs_equal!(r@, Seq::<u64>::empty());
        }
        r
    }

    /// Append if there is room, else overwrite the oldest retained element.
    pub fn push(&mut self, val: u64)
        requires
            old(self).wf(),
        ensures
            final(self).wf(),
            final(self).cap() == old(self).cap(),
            final(self)@ == ring_push(old(self)@, val, old(self).cap()),
    {
        let ghost ov = old(self)@;
        let ghost c = self.capacity as int;
        let ghost h = self.head as int;
        if self.buffer.len() < self.capacity {
            self.buffer.push(val);
        } else {
            let head = self.head;
            self.buffer.set(head, val);
        }
        self.head = if self.head + 1 == self.capacity {
            0
        } else {
            self.head + 1
        };
        proof {
            assert_seqs_equal!(self@, ring_push(ov, val, c as nat));
        }
    }

    pub fn len(&self) -> (n: usize)
        requires
            self.wf(),
        ensures
            n == self@.len(),
    {
        self.buffer.len()
    }

    /// The retained elements in strict newest-to-oldest order: exactly
    /// `self@.len()` elements, the most recently pushed first.
    pub fn iter(&self) -> (r: Vec<u64>)
        requires
            self.wf(),
        ensures
            r@.len() == self@.len(),
            forall|k: int| 0 <= k < r@.len() ==> r@[k] == self@[self@.len() - 1 - k],
    {
        let n = self.buffer.len();
        let mut r: Vec<u64> = Vec::new();
        let mut k: usize = 0;
        while k < n
            invariant
                self.wf(),
                n == self@.len(),
                n == self.buffer.len(),
                k <= n,
                r@.len() == k,
                forall|t: int| 0 <= t < k ==> r@[t] == self@[n - 1 - t],
            decreases n - k,
        {
            let p = n - 1 - k;
            let x = if self.buffer.len() < self.capacity {
                self.buffer[p]
            } else {
                let idx = if p < self.capacity - self.head {
                    self.head + p
                } else {
                    p - (self.capacity - self.head)
                };
                self.buffer[idx]
            };
            assert(x == self@[p as int]);
            r.push(x);
            k = k + 1;
        }
        r
    }
}

} // verus!
