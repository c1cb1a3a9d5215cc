//! The coloured flavour of the ring buffer: each retained element pairs a
//! time of flight with the channel it arrived on.
use crate::circular_buffer::ring_push;
use vstd::assert_seqs_equal;
use vstd::prelude::*;

verus! {

/// Coloured ring holding `(tof, channel)` pairs.
pub struct CCircularBuffer {
    buffer: Vec<(u64, i32)>,
    capacity: usize,
    head: usize,
}

impl View for CCircularBuffer {
    type V = Seq<(u64, i32)>;

    /// Retained elements in chronological push order, oldest first.
    closed spec fn view(&self) -> Seq<(u64, i32)> {
        if self.buffer.len() < self.capacity {
            self.buffer@
        } else {
            self.buffer@.skip(self.head as int) + self.buffer@.take(self.head as int)
        }
    }
}

impl CCircularBuffer {
    pub closed spec fn cap(&self) -> nat {
        self.capacity as nat
    }

    pub closed spec fn wf(&self) -> bool {
        &&& self.capacity >= 1
        &&& self.buffer.len() <= self.capacity
        &&& self.head < self.capacity
        &&& self.buffer.len() < self.capacity ==> self.head == self.buffer.len()
    }

    pub fn new(buffer_size: usize) -> (r: Self)
        requires
            buffer_size >= 1,
        ensures
            r.wf(),
            r.cap() == buffer_size,
            r@ == Seq::<(u64, i32)>::empty(),
    {
        let r = Self { buffer: Vec::new(), capacity: buffer_size, head: 0 };
        proof {
            assert_seqs_equal!(r@, Seq::<(u64, i32)>::empty());
        }
        r
    }

    /// Append if there is room, else overwrite the oldest retained element.
    pub fn push(&mut self, val: u64, ch: i32)
        requires
            old(self).wf(),
        ensures
            final(self).wf(),
            final(self).cap() == old(self).cap(),
            final(self)@ == ring_push(old(self)@, (val, ch), old(self).cap()),
    {
        let ghost ov = old(self)@;
        let ghost c = self.capacity as int;
        if self.buffer.len() < self.capacity {
            self.buffer.push((val, ch));
        } else {
            let head = self.head;
            self.buffer.set(head, (val, ch));
        }
        self.head = if self.head + 1 == self.capacity {
            0
        } else {
            self.head + 1
        };
        proof {
            assert_seqs_equal!(self@, ring_push(ov, (val, ch), c as nat));
        }
    }

    pub fn len(&self) -> (n: usize)
        requires
            self.wf(),
        ensures
            n == self@.len(),
    {
        self.buffer.len()
    }

    /// The retained elements in strict newest-to-oldest order: exactly
    /// `self@.len()` elements, the most recently pushed first.
    pub fn iter(&self) -> (r: Vec<(u64, i32)>)
        requires
            self.wf(),
        ensures
            r@.len() == self@.len(),
            forall|k: int| 0 <= k < r@.len() ==> r@[k] == self@[self@.len() - 1 - k],
    {
        let n = self.buffer.len();
        let mut r: Vec<(u64, i32)> = Vec::new();
        let mut k: usize = 0;
        while k < n
            invariant
                self.wf(),
                n == self@.len(),
                n == self.buffer.len(),
                k <= n,
                r@.len() == k,
                forall|t: int| 0 <= t < k ==> r@[t] == self@[n - 1 - t],
            decreases n - k,
        {
            let p = n - 1 - k;
            let x = if self.buffer.len() < self.capacity {
                self.buffer[p]
            } else {
                let idx = if p < self.capacity - self.head {
                    self.head + p
                } else {
                    p - (self.capacity - self.head)
                };
                self.buffer[idx]
            };
            assert(x == self@[p as int]);
            r.push(x);
            k = k + 1;
        }
        r
    }
}

} // verus!
