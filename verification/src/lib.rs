//! Streaming analysis for time-tagged time-resolved (TTTR) photon counting
//! data: record decoders for the PicoQuant PTU record formats, bounded ring
//! buffers, and single-pass correlation engines (intensity trace, lifetime,
//! g2, g3, synchronized g3, zero-delay finder).
use vstd::prelude::*;

pub mod circular_buffer;
pub mod colored_circular_buffer;
pub mod errors;
pub mod g2;
pub mod g3;
pub mod headers;
pub mod lifetime;
pub mod ptu;
pub mod streamers;
pub mod synced_g3;
pub mod timetrace;
pub mod zero_finder;

verus! {

/// One decoded detector event: a channel number and an unwrapped time of
/// flight in ticks. Non-negative channels are real detector channels; -1
/// carries overflow/error records and -2 marker records.
#[derive(Debug, Clone, Copy, PartialEq, Eq, Structural)]
pub struct TTTRRecord {
    pub channel: i32,
    pub tof: u64,
}

impl TTTRRecord {
    pub fn channel(&self) -> (c: i32)
        ensures
            c == self.channel,
    {
        self.channel
    }

    pub fn tof(&self) -> (t: u64)
        ensures
            t == self.tof,
    {
        self.tof
    }
}

/// The events whose channel is one of `c1`, `c2` arrive with non-decreasing
/// time of flight. The correlation engines rely on this ordering: it is what
/// makes every subtraction between a current and a buffered time safe.
pub open spec fn rel_sorted_2(events: Seq<TTTRRecord>, c1: i32, c2: i32) -> bool {
    forall|i: int, j: int|
        #![trigger events[i], events[j]]
        0 <= i < j < events.len() && (events[i].channel == c1 || events[i].channel == c2) && (
        events[j].channel == c1 || events[j].channel == c2) ==> events[i].tof <= events[j].tof
}

/// As `rel_sorted_2`, for the three channels of a third-order engine.
pub open spec fn rel_sorted_3(events: Seq<TTTRRecord>, c1: i32, c2: i32, c3: i32) -> bool {
    forall|i: int, j: int|
        #![trigger events[i], events[j]]
        0 <= i < j < events.len() && (events[i].channel == c1 || events[i].channel == c2
            || events[i].channel == c3) && (events[j].channel == c1 || events[j].channel == c2
            || events[j].channel == c3) ==> events[i].tof <= events[j].tof
}

/// One histogram increment, dropped when the bin index lies out of range.
/// The engines prove their indices in range; the guard keeps the model
/// total.
pub open spec fn hist_bump(h: Seq<u64>, idx: int) -> Seq<u64> {
    if 0 <= idx < h.len() {
        h.update(idx, (h[idx] + 1) as u64)
    } else {
        h
    }
}

/// A fresh histogram of `n` zeroed counters.
pub open spec fn zero_hist(n: nat) -> Seq<u64> {
    Seq::new(n, |i: int| 0u64)
}

/// Allocate a histogram of `n` zeroed counters.
pub fn make_zero_hist(n: usize) -> (r: Vec<u64>)
    ensures
        r@ == zero_hist(n as nat),
        r@.len() == n,
{
    let mut r: Vec<u64> = Vec::new();
    let mut k: usize = 0;
    while k < n
        invariant
            k <= n,
            r@.len() == k,
            forall|t: int| 0 <= t < k ==> r@[t] == 0u64,
        decreases n - k,
    {
        r.push(0);
        k = k + 1;
    }
    proof {
        assert(r@ =~= zero_hist(n as nat));
    }
    r
}

/// A delay strictly inside the correlation window `nb * res` scales to a
/// bin offset strictly below `nb`, and such a window can only be non-empty
/// when the bin width is non-zero.
pub proof fn lemma_window_index(delta: u64, nb: u64, res: u64)
    requires
        delta < nb * res,
    ensures
        res > 0,
        delta / res < nb,
{
    vstd::arithmetic::mul::lemma_mul_basics(nb as int);
    if res == 0 {
        assert(nb * res == 0);
    }
    vstd::arithmetic::mul::lemma_mul_is_commutative(nb as int, res as int);
    vstd::arithmetic::div_mod::lemma_multiply_divide_lt(delta as int, res as int, nb as int);
}

} // verus!
