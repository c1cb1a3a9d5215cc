//! Third-order autocorrelation (g3): for every click on one of the three
//! configured channels, the pairs of older buffered clicks are dispatched
//! by channel permutation into a square histogram over the two delays
//! (tau_1, tau_2), both measured against the channel-1 click with signs
//! following the arrival-order geometry.
use crate::circular_buffer::ring_push;
use crate::colored_circular_buffer::CCircularBuffer;
use crate::errors::Error;
use crate::headers::{file_ptu, File, RecordType};
use crate::ptu::{file_record_type, record_type_of_code};
use crate::streamers::{decode_stream, decoded_events, stream_fits};
use crate::{hist_bump, lemma_window_index, make_zero_hist, rel_sorted_3, zero_hist, TTTRRecord};
use vstd::prelude::*;

verus! {

pub const MAX_BUFFER_SIZE: usize = 4096;

/// Parameters for the g3 algorithm, in ticks of the stream's time
/// resolution: each axis has `n_bins_side` bins on each side of zero
/// delay, each `resolution_ticks` wide.
pub struct G3Params {
    pub channel_1: i32,
    pub channel_2: i32,
    pub channel_3: i32,
    pub n_bins_side: u64,
    pub resolution_ticks: u64,
}

/// Result from the g3 algorithm: a square matrix stored row-major, first
/// index tau_1, second tau_2, side length `n_bins`.
pub struct G3Result {
    pub hist: Vec<u64>,
    pub n_bins: usize,
}

/// One increment of the square histogram of side `n`, dropped when either
/// index lies out of range.
pub open spec fn hist2_bump(h: Seq<u64>, i1: int, i2: int, n: int) -> Seq<u64> {
    if 0 <= i1 < n && 0 <= i2 < n {
        hist_bump(h, i1 * n + i2)
    } else {
        h
    }
}

/// File one delay pair, each axis on its signed side of the central bin.
/// Both delays must fall inside the correlation window; otherwise the
/// inner walk stops (second component true).
pub open spec fn g3_count(
    hist: Seq<u64>,
    tau1: int,
    tau2: int,
    pos1: bool,
    pos2: bool,
    p: G3Params,
) -> (Seq<u64>, bool) {
    let cw = p.n_bins_side * p.resolution_ticks;
    let res = p.resolution_ticks as int;
    let nb = p.n_bins_side as int;
    if 0 <= tau1 < cw && 0 <= tau2 < cw {
        let i1 = if pos1 {
            nb + tau1 / res
        } else {
            nb - tau1 / res - 1
        };
        let i2 = if pos2 {
            nb + tau2 / res
        } else {
            nb - tau2 / res - 1
        };
        (hist2_bump(hist, i1, i2, 2 * nb), false)
    } else {
        (hist, true)
    }
}

/// Dispatch one ordered click triple on the permutation of its channels
/// against the configured ones. Each of the six counted permutations
/// assigns the two delays and their signs from the arrival-order
/// geometry; every other combination passes.
pub open spec fn g3_case(
    hist: Seq<u64>,
    d12: int,
    d23: int,
    d13: int,
    c1: i32,
    c2: i32,
    c3: i32,
    p: G3Params,
) -> (Seq<u64>, bool) {
    if c1 == p.channel_1 {
        if c2 == p.channel_2 {
            if c3 == p.channel_3 {
                g3_count(hist, d12, d13, false, false, p)
            } else {
                (hist, false)
            }
        } else if c2 == p.channel_3 {
            if c3 == p.channel_2 {
                g3_count(hist, d13, d12, false, false, p)
            } else {
                (hist, false)
            }
        } else {
            (hist, false)
        }
    } else if c1 == p.channel_2 {
        if c2 == p.channel_1 {
            if c3 == p.channel_3 {
                g3_count(hist, d12, d23, true, false, p)
            } else {
                (hist, false)
            }
        } else if c2 == p.channel_3 {
            if c3 == p.channel_1 {
                g3_count(hist, d13, d23, true, true, p)
            } else {
                (hist, false)
            }
        } else {
            (hist, false)
        }
    } else if c1 == p.channel_3 {
        if c2 == p.channel_1 {
            if c3 == p.channel_2 {
                g3_count(hist, d23, d12, false, true, p)
            } else {
                (hist, false)
            }
        } else if c2 == p.channel_2 {
            if c3 == p.channel_1 {
                g3_count(hist, d23, d13, true, true, p)
            } else {
                (hist, false)
            }
        } else {
            (hist, false)
        }
    } else {
        (hist, false)
    }
}

/// Walk the whole buffer newest-first as the third click of the triple.
/// Clicks not strictly older than the second click pass (time ordering is
/// broken when walking the shared buffer); a counted permutation whose
/// delays leave the window stops the walk.
pub open spec fn g3_inner(
    hist: Seq<u64>,
    buf: Seq<(u64, i32)>,
    t1: u64,
    c1: i32,
    t2: u64,
    c2: i32,
    p: G3Params,
) -> Seq<u64>
    decreases buf.len(),
{
    if buf.len() == 0 {
        hist
    } else {
        let (t3, c3) = buf.last();
        if t3 >= t2 {
            g3_inner(hist, buf.drop_last(), t1, c1, t2, c2, p)
        } else {
            let (h2, stop) = g3_case(
                hist,
                t1 - t2,
                t2 - t3,
                t1 - t3,
                c1,
                c2,
                c3,
                p,
            );
            if stop {
                h2
            } else {
                g3_inner(h2, buf.drop_last(), t1, c1, t2, c2, p)
            }
        }
    }
}

/// Walk the buffer newest-first as the second click of the triple; the
/// first second-click past the correlation window stops the walk, since
/// older buffered clicks only lie further away.
pub open spec fn g3_outer(
    hist: Seq<u64>,
    buf2: Seq<(u64, i32)>,
    full: Seq<(u64, i32)>,
    t1: u64,
    c1: i32,
    p: G3Params,
) -> Seq<u64>
    decreases buf2.len(),
{
    let cw = p.n_bins_side * p.resolution_ticks;
    if buf2.len() == 0 {
        hist
    } else {
        let (t2, c2) = buf2.last();
        if t1 - t2 > cw {
            hist
        } else {
            g3_outer(
                g3_inner(hist, full, t1, c1, t2, c2, p),
                buf2.drop_last(),
                full,
                t1,
                c1,
                p,
            )
        }
    }
}

pub struct G3State {
    pub buf: Seq<(u64, i32)>,
    pub hist: Seq<u64>,
}

/// One event: a click on a configured channel counts its delay pairs
/// against the buffered clicks, and only then joins the buffer — the
/// walks must not see the current event.
pub open spec fn g3_step(st: G3State, ev: TTTRRecord, p: G3Params, cap: nat) -> G3State {
    if ev.channel == p.channel_1 || ev.channel == p.channel_2 || ev.channel == p.channel_3 {
        G3State {
            buf: ring_push(st.buf, (ev.tof, ev.channel), cap),
            hist: g3_outer(st.hist, st.buf, st.buf, ev.tof, ev.channel, p),
        }
    } else {
        st
    }
}

/// The state after the first `n` events of the stream.
pub open spec fn g3_fold(events: Seq<TTTRRecord>, n: int, p: G3Params, cap: nat) -> G3State
    decreases n,
{
    if n <= 0 {
        G3State {
            buf: Seq::empty(),
            hist: zero_hist(((2 * p.n_bins_side) * (2 * p.n_bins_side)) as nat),
        }
    } else {
        g3_step(g3_fold(events, n - 1, p, cap), events[n - 1], p, cap)
    }
}

/// A grid index built from two in-range axis indices stays inside the
/// square histogram.
pub proof fn lemma_grid_index(i1: int, i2: int, n: int)
    requires
        0 <= i1 < n,
        0 <= i2 < n,
    ensures
        0 <= i1 * n + i2 < n * n,
{
    vstd::arithmetic::mul::lemma_mul_inequality(i1, n - 1, n);
    vstd::arithmetic::mul::lemma_mul_is_distributive_sub(n, n, 1);
    vstd::arithmetic::mul::lemma_mul_is_commutative(i1, n);
    vstd::arithmetic::mul::lemma_mul_is_commutative(n - 1, n);
    vstd::arithmetic::mul::lemma_mul_basics(n);
    vstd::arithmetic::mul::lemma_mul_nonnegative(i1, n);
}

/// One dispatched triple adds at most one count and keeps the histogram
/// size.
pub proof fn lemma_g3_case_bounds(
    hist: Seq<u64>,
    d12: int,
    d23: int,
    d13: int,
    c1: i32,
    c2: i32,
    c3: i32,
    p: G3Params,
)
    ensures
        g3_case(hist, d12, d23, d13, c1, c2, c3, p).0.len() == hist.len(),
        forall|k: int|
            0 <= k < hist.len() ==> g3_case(hist, d12, d23, d13, c1, c2, c3, p).0[k] <= hist[k]
                + 1,
{
    assert forall|h: Seq<u64>, idx: int, k: int|
        0 <= k < h.len() implies #[trigger] hist_bump(h, idx)[k] <= h[k] + 1 by {
        if 0 <= idx < h.len() && k == idx {
            let x = h[idx];
            assert((x + 1) as u64 <= x + 1) by (bit_vector);
        }
    }
}

/// An inner walk adds at most one count per buffered click.
pub proof fn lemma_g3_inner_bounds(
    hist: Seq<u64>,
    buf: Seq<(u64, i32)>,
    t1: u64,
    c1: i32,
    t2: u64,
    c2: i32,
    p: G3Params,
)
    ensures
        g3_inner(hist, buf, t1, c1, t2, c2, p).len() == hist.len(),
        forall|k: int|
            0 <= k < hist.len() ==> g3_inner(hist, buf, t1, c1, t2, c2, p)[k] <= hist[k]
                + buf.len(),
    decreases buf.len(),
{
    if buf.len() > 0 {
        let (t3, c3) = buf.last();
        if t3 >= t2 {
            lemma_g3_inner_bounds(hist, buf.drop_last(), t1, c1, t2, c2, p);
        } else {
            let (h2, stop) = g3_case(hist, t1 - t2, t2 - t3, t1 - t3, c1, c2, c3, p);
            lemma_g3_case_bounds(hist, t1 - t2, t2 - t3, t1 - t3, c1, c2, c3, p);
            if !stop {
                lemma_g3_inner_bounds(h2, buf.drop_last(), t1, c1, t2, c2, p);
            }
        }
    }
}

/// An outer walk adds at most one count per pair of buffered clicks.
pub proof fn lemma_g3_outer_bounds(
    hist: Seq<u64>,
    buf2: Seq<(u64, i32)>,
    full: Seq<(u64, i32)>,
    t1: u64,
    c1: i32,
    p: G3Params,
)
    ensures
        g3_outer(hist, buf2, full, t1, c1, p).len() == hist.len(),
        forall|k: int|
            0 <= k < hist.len() ==> g3_outer(hist, buf2, full, t1, c1, p)[k] <= hist[k]
                + buf2.len() * full.len(),
    decreases buf2.len(),
{
    vstd::arithmetic::mul::lemma_mul_nonnegative(buf2.len() as int, full.len() as int);
    if buf2.len() > 0 {
        let (t2, c2) = buf2.last();
        let cw = p.n_bins_side * p.resolution_ticks;
        if !(t1 - t2 > cw) {
            let h2 = g3_inner(hist, full, t1, c1, t2, c2, p);
            lemma_g3_inner_bounds(hist, full, t1, c1, t2, c2, p);
            lemma_g3_outer_bounds(h2, buf2.drop_last(), full, t1, c1, p);
            vstd::arithmetic::mul::lemma_mul_is_distributive_sub(
                full.len() as int,
                buf2.len() as int,
                1,
            );
            vstd::arithmetic::mul::lemma_mul_is_commutative(
                buf2.len() as int - 1,
                full.len() as int,
            );
            vstd::arithmetic::mul::lemma_mul_is_commutative(buf2.len() as int, full.len() as int);
            vstd::arithmetic::mul::lemma_mul_basics(full.len() as int);
        }
    }
}

/// Folding `n` events keeps the square histogram's size, keeps the buffer
/// within capacity, and adds at most `cap * cap` counts per event.
pub proof fn lemma_g3_bounds(events: Seq<TTTRRecord>, n: int, p: G3Params, cap: nat)
    requires
        0 <= n <= events.len(),
        cap >= 1,
    ensures
        g3_fold(events, n, p, cap).hist.len() == (2 * p.n_bins_side) * (2 * p.n_bins_side),
        g3_fold(events, n, p, cap).buf.len() <= cap,
        forall|k: int|
            0 <= k < g3_fold(events, n, p, cap).hist.len() ==> g3_fold(events, n, p, cap).hist[k]
                <= (cap * cap) * n,
    decreases n,
{
    let capsq = (cap * cap) as int;
    vstd::arithmetic::mul::lemma_mul_basics(capsq);
    vstd::arithmetic::mul::lemma_mul_nonnegative(cap as int, cap as int);
    if n > 0 {
        lemma_g3_bounds(events, n - 1, p, cap);
        let st = g3_fold(events, n - 1, p, cap);
        let ev = events[n - 1];
        vstd::arithmetic::mul::lemma_mul_is_distributive_add(capsq, n - 1, 1);
        if ev.channel == p.channel_1 || ev.channel == p.channel_2 || ev.channel == p.channel_3 {
            lemma_g3_outer_bounds(st.hist, st.buf, st.buf, ev.tof, ev.channel, p);
            vstd::arithmetic::mul::lemma_mul_upper_bound(
                st.buf.len() as int,
                cap as int,
                st.buf.len() as int,
                cap as int,
            );
            let hn = g3_fold(events, n, p, cap).hist;
            assert(hn == g3_outer(st.hist, st.buf, st.buf, ev.tof, ev.channel, p));
            assert forall|k: int| 0 <= k < hn.len() implies hn[k] <= (cap * cap) * n by {
                assert(hn[k] <= st.hist[k] + st.buf.len() * st.buf.len());
                assert(st.hist[k] <= (cap * cap) * (n - 1));
                assert(st.buf.len() * st.buf.len() <= cap * cap);
            }
        }
    }
}

/// File one delay pair into the square histogram; reports whether the
/// window was left (which stops the inner walk).
fn g3_file(
    hist: &mut Vec<u64>,
    tau1: u64,
    tau2: u64,
    pos1: bool,
    pos2: bool,
    nb: u64,
    res: u64,
    p: &G3Params,
) -> (stop: bool)
    requires
        nb == p.n_bins_side,
        res == p.resolution_ticks,
        nb * res <= u64::MAX,
        2 * nb <= usize::MAX,
        old(hist)@.len() == (2 * nb) * (2 * nb),
        forall|k: int| 0 <= k < old(hist)@.len() ==> old(hist)@[k] + 1 <= u64::MAX,
    ensures
        final(hist)@ == g3_count(old(hist)@, tau1 as int, tau2 as int, pos1, pos2, *p).0,
        stop == g3_count(old(hist)@, tau1 as int, tau2 as int, pos1, pos2, *p).1,
{
    let correlation_window = nb * res;
    if tau1 < correlation_window && tau2 < correlation_window {
        proof {
            lemma_window_index(tau1, nb, res);
            lemma_window_index(tau2, nb, res);
        }
        let hl = hist.len();
        let q1 = tau1 / res;
        let i1 = if pos1 {
            nb + q1
        } else {
            nb - q1 - 1
        };
        let q2 = tau2 / res;
        let i2 = if pos2 {
            nb + q2
        } else {
            nb - q2 - 1
        };
        proof {
            lemma_grid_index(i1 as int, i2 as int, 2 * nb as int);
        }
        let idx = (i1 * (2 * nb) + i2) as usize;
        let v = hist[idx];
        hist.set(idx, v + 1);
        false
    } else {
        true
    }
}

/// Walk the whole buffer as the third click for a fixed first and second
/// click, accumulating into `hist`.
fn g3_inner_accumulate(
    hist: &mut Vec<u64>,
    buf: &CCircularBuffer,
    t1: u64,
    c1: i32,
    t2: u64,
    c2: i32,
    nb: u64,
    res: u64,
    p: &G3Params,
)
    requires
        buf.wf(),
        nb == p.n_bins_side,
        res == p.resolution_ticks,
        nb * res <= u64::MAX,
        2 * nb <= usize::MAX,
        t2 <= t1,
        forall|k: int| 0 <= k < buf@.len() ==> (#[trigger] buf@[k]).0 <= t1,
        old(hist)@.len() == (2 * nb) * (2 * nb),
        forall|k: int| 0 <= k < old(hist)@.len() ==> old(hist)@[k] + buf@.len() <= u64::MAX,
    ensures
        final(hist)@ == g3_inner(old(hist)@, buf@, t1, c1, t2, c2, *p),
        final(hist)@.len() == old(hist)@.len(),
        forall|k: int| 0 <= k < old(hist)@.len() ==> final(hist)@[k] <= old(hist)@[k] + buf@.len(),
{
    let ghost h0 = old(hist)@;
    let ghost bufv = buf@;
    let it = buf.iter();
    let m = it.len();
    proof {
        assert(bufv.take(m as int) =~= bufv);
    }
    let mut j: usize = 0;
    while j < m
        invariant_except_break
            j <= m,
            m == bufv.len(),
            it@.len() == m,
            forall|k: int| 0 <= k < m ==> it@[k] == bufv[m - 1 - k],
            forall|k: int| 0 <= k < m ==> (#[trigger] bufv[k]).0 <= t1,
            t2 <= t1,
            nb == p.n_bins_side,
            res == p.resolution_ticks,
            nb * res <= u64::MAX,
            2 * nb <= usize::MAX,
            h0.len() == (2 * nb) * (2 * nb),
            hist@.len() == h0.len(),
            forall|k: int| 0 <= k < h0.len() ==> h0[k] + m <= u64::MAX,
            forall|k: int| 0 <= k < h0.len() ==> hist@[k] <= h0[k] + j,
            g3_inner(h0, bufv, t1, c1, t2, c2, *p) == g3_inner(
                hist@,
                bufv.take(m - j),
                t1,
                c1,
                t2,
                c2,
                *p,
            ),
        ensures
            hist@.len() == h0.len(),
            forall|k: int| 0 <= k < h0.len() ==> hist@[k] <= h0[k] + m,
            g3_inner(h0, bufv, t1, c1, t2, c2, *p) == hist@,
        decreases m - j,
    {
        proof {
            assert(bufv.take(m - j).drop_last() =~= bufv.take(m - j - 1));
            assert(bufv.take(m - j).last() == it@[j as int]);
        }
        let (t3, c3) = it[j];
        proof {
            assert((t3, c3) == bufv[m - 1 - j]);
            assert(t3 <= t1);
        }
        if t3 >= t2 {
            // time ordering is broken when walking the shared buffer
            j = j + 1;
        } else {
            let d12 = t1 - t2;
            let d23 = t2 - t3;
            let d13 = t1 - t3;
            proof {
                assert forall|k: int| 0 <= k < hist@.len() implies hist@[k] + 1 <= u64::MAX by {
                    assert(hist@[k] <= h0[k] + j);
                    assert(h0[k] + m <= u64::MAX);
                }
            }
            let ghost hist_before = hist@;
            let ghost case = g3_case(hist_before, d12 as int, d23 as int, d13 as int, c1, c2, c3, *p);
            let mut stop = false;
            if c1 == p.channel_1 {
                if c2 == p.channel_2 {
                    if c3 == p.channel_3 {
                        stop = g3_file(hist, d12, d13, false, false, nb, res, p);
                    }
                } else if c2 == p.channel_3 {
                    if c3 == p.channel_2 {
                        stop = g3_file(hist, d13, d12, false, false, nb, res, p);
                    }
                }
            } else if c1 == p.channel_2 {
                if c2 == p.channel_1 {
                    if c3 == p.channel_3 {
                        stop = g3_file(hist, d12, d23, true, false, nb, res, p);
                    }
                } else if c2 == p.channel_3 {
                    if c3 == p.channel_1 {
                        stop = g3_file(hist, d13, d23, true, true, nb, res, p);
                    }
                }
            } else if c1 == p.channel_3 {
                if c2 == p.channel_1 {
                    if c3 == p.channel_2 {
                        stop = g3_file(hist, d23, d12, false, true, nb, res, p);
                    }
                } else if c2 == p.channel_2 {
                    if c3 == p.channel_1 {
                        stop = g3_file(hist, d23, d13, true, true, nb, res, p);
                    }
                }
            }
            proof {
                assert(hist@ == case.0);
                assert(stop == case.1);
            }
            if stop {
                break ;
            }
            j = j + 1;
        }
    }
}

/// Walk the buffer as the second click for a fixed first click,
/// accumulating into `hist`.
fn g3_outer_accumulate(
    hist: &mut Vec<u64>,
    buf: &CCircularBuffer,
    t1: u64,
    c1: i32,
    nb: u64,
    res: u64,
    p: &G3Params,
)
    requires
        buf.wf(),
        nb == p.n_bins_side,
        res == p.resolution_ticks,
        nb * res <= u64::MAX,
        2 * nb <= usize::MAX,
        forall|k: int| 0 <= k < buf@.len() ==> (#[trigger] buf@[k]).0 <= t1,
        old(hist)@.len() == (2 * nb) * (2 * nb),
        forall|k: int|
            0 <= k < old(hist)@.len() ==> old(hist)@[k] + buf@.len() * buf@.len() <= u64::MAX,
    ensures
        final(hist)@ == g3_outer(old(hist)@, buf@, buf@, t1, c1, *p),
        final(hist)@.len() == old(hist)@.len(),
        forall|k: int|
            0 <= k < old(hist)@.len() ==> final(hist)@[k] <= old(hist)@[k] + buf@.len()
                * buf@.len(),
{
    let ghost h0 = old(hist)@;
    let ghost bufv = buf@;
    let it = buf.iter();
    let m = it.len();
    let correlation_window = nb * res;
    proof {
        assert(bufv.take(m as int) =~= bufv);
        vstd::arithmetic::mul::lemma_mul_nonnegative(m as int, m as int);
    }
    let mut j: usize = 0;
    while j < m
        invariant_except_break
            j <= m,
            m == bufv.len(),
            it@.len() == m,
            forall|k: int| 0 <= k < m ==> it@[k] == bufv[m - 1 - k],
            forall|k: int| 0 <= k < m ==> (#[trigger] bufv[k]).0 <= t1,
            buf.wf(),
            bufv == buf@,
            nb == p.n_bins_side,
            res == p.resolution_ticks,
            nb * res <= u64::MAX,
            2 * nb <= usize::MAX,
            correlation_window == nb * res,
            h0.len() == (2 * nb) * (2 * nb),
            hist@.len() == h0.len(),
            forall|k: int| 0 <= k < h0.len() ==> h0[k] + m * m <= u64::MAX,
            forall|k: int| 0 <= k < h0.len() ==> hist@[k] <= h0[k] + j * m,
            g3_outer(h0, bufv, bufv, t1, c1, *p) == g3_outer(
                hist@,
                bufv.take(m - j),
                bufv,
                t1,
                c1,
                *p,
            ),
        ensures
            hist@.len() == h0.len(),
            forall|k: int| 0 <= k < h0.len() ==> hist@[k] <= h0[k] + m * m,
            g3_outer(h0, bufv, bufv, t1, c1, *p) == hist@,
        decreases m - j,
    {
        proof {
            assert(bufv.take(m - j).drop_last() =~= bufv.take(m - j - 1));
            assert(bufv.take(m - j).last() == it@[j as int]);
            vstd::arithmetic::mul::lemma_mul_is_distributive_add_other_way(
                m as int,
                j as int,
                1,
            );
            vstd::arithmetic::mul::lemma_mul_basics(m as int);
            vstd::arithmetic::mul::lemma_mul_inequality(j + 1, m as int, m as int);
            vstd::arithmetic::mul::lemma_mul_nonnegative(j as int, m as int);
        }
        let (t2, c2) = it[j];
        proof {
            assert((t2, c2) == bufv[m - 1 - j]);
            assert(t2 <= t1);
        }
        let d12 = t1 - t2;
        if d12 > correlation_window {
            break ;
        }
        proof {
            assert forall|k: int| 0 <= k < hist@.len() implies hist@[k] + bufv.len() <= u64::MAX by {
                assert(hist@[k] <= h0[k] + j * m);
                assert(h0[k] + m * m <= u64::MAX);
                assert(j * m + m <= m * m);
            }
        }
        let ghost hist_mid = hist@;
        g3_inner_accumulate(hist, buf, t1, c1, t2, c2, nb, res, p);
        proof {
            assert(g3_inner(hist_mid, bufv, t1, c1, t2, c2, *p) == hist@);
        }
        j = j + 1;
    }
}

/// Arithmetic bridge: a square histogram that has absorbed `i` events
/// stays far enough below the 64-bit ceiling to absorb one more buffer's
/// worth of click pairs.
proof fn lemma_g3_call_bound(hist: Seq<u64>, buflen: nat, i: int, n: int)
    requires
        0 <= i < n,
        buflen <= 4096,
        forall|k: int| 0 <= k < hist.len() ==> hist[k] <= 16777216 * i,
        16777216 * n <= u64::MAX,
    ensures
        forall|k: int| 0 <= k < hist.len() ==> hist[k] + buflen * buflen <= u64::MAX,
{
    assert forall|k: int| 0 <= k < hist.len() implies hist[k] + buflen * buflen <= u64::MAX by {
        vstd::arithmetic::mul::lemma_mul_upper_bound(buflen as int, 4096, buflen as int, 4096);
        vstd::arithmetic::mul::lemma_mul_is_distributive_add(16777216, i, 1);
        vstd::arithmetic::mul::lemma_mul_basics(16777216);
        vstd::arithmetic::mul::lemma_mul_inequality(i + 1, n, 16777216);
        vstd::arithmetic::mul::lemma_mul_is_commutative(i + 1, 16777216);
        vstd::arithmetic::mul::lemma_mul_is_commutative(n, 16777216);
    }
}

/// Compute the third-order coincidence histogram of a decoded stream.
pub fn g3_events(events: &Vec<TTTRRecord>, params: &G3Params) -> (r: G3Result)
    requires
        rel_sorted_3(events@, params.channel_1, params.channel_2, params.channel_3),
        params.n_bins_side * params.resolution_ticks <= u64::MAX,
        (2 * params.n_bins_side) * (2 * params.n_bins_side) <= usize::MAX,
        16777216 * events@.len() <= u64::MAX,
    ensures
        r.hist@ == g3_fold(events@, events@.len() as int, *params, MAX_BUFFER_SIZE as nat).hist,
        r.hist@.len() == (2 * params.n_bins_side) * (2 * params.n_bins_side),
        r.n_bins == 2 * params.n_bins_side,
{
    let ghost p = *params;
    let ghost cap = MAX_BUFFER_SIZE as nat;
    let n = events.len();
    let nb = params.n_bins_side;
    let res = params.resolution_ticks;
    proof {
        if nb >= 1 {
            vstd::arithmetic::mul::lemma_mul_ordering(2 * nb as int, 2 * nb as int);
        }
    }
    let n_bins = (2 * nb) as usize;
    let mut hist = make_zero_hist(((2 * nb) * (2 * nb)) as usize);
    let mut click_buffer = CCircularBuffer::new(MAX_BUFFER_SIZE);
    let mut i: usize = 0;
    while i < n
        invariant
            n == events@.len(),
            i <= n,
            p == *params,
            rel_sorted_3(events@, p.channel_1, p.channel_2, p.channel_3),
            nb == p.n_bins_side,
            res == p.resolution_ticks,
            nb * res <= u64::MAX,
            (2 * nb) * (2 * nb) <= usize::MAX,
            16777216 * n <= u64::MAX,
            cap == 4096,
            click_buffer.wf(),
            click_buffer.cap() == cap,
            click_buffer@ == g3_fold(events@, i as int, p, cap).buf,
            hist@ == g3_fold(events@, i as int, p, cap).hist,
            hist@.len() == (2 * nb) * (2 * nb),
            forall|j: int, k: int|
                0 <= k < click_buffer@.len() && i <= j < n && ((#[trigger] events@[j]).channel
                    == p.channel_1 || events@[j].channel == p.channel_2 || events@[j].channel
                    == p.channel_3) ==> (#[trigger] click_buffer@[k]).0 <= events@[j].tof,
        decreases n - i,
    {
        proof {
            lemma_g3_bounds(events@, i as int, p, cap);
            if nb >= 1 {
                vstd::arithmetic::mul::lemma_mul_ordering(2 * nb as int, 2 * nb as int);
            }
        }
        proof {
            assert(2 * nb <= usize::MAX);
        }
        let ev = events[i];
        if ev.channel == params.channel_1 || ev.channel == params.channel_2 || ev.channel
            == params.channel_3 {
            proof {
                lemma_g3_call_bound(hist@, click_buffer@.len(), i as int, n as int);
            }
            g3_outer_accumulate(&mut hist, &click_buffer, ev.tof, ev.channel, nb, res, params);
            click_buffer.push(ev.tof, ev.channel);
        }
        i = i + 1;
    }
    G3Result { hist, n_bins }
}

/// Third-order coincidences over a file's record words: select the
/// stream the header declares, decode, and run the engine.
pub fn g3(f: &File, params: &G3Params, words: &Vec<u32>) -> (r: Result<G3Result, Error>)
    requires
        record_type_of_code(file_ptu(*f).rec_type_code) is Some,
        file_record_type(file_ptu(*f)) != RecordType::NotImplemented,
        stream_fits(
            file_record_type(file_ptu(*f)),
            words@,
            file_ptu(*f).sync_period_ps,
            file_ptu(*f).dtime_res_ps,
        ),
        rel_sorted_3(
            decoded_events(
                file_record_type(file_ptu(*f)),
                words@,
                file_ptu(*f).sync_period_ps,
                file_ptu(*f).dtime_res_ps,
            ),
            params.channel_1,
            params.channel_2,
            params.channel_3,
        ),
        params.n_bins_side * params.resolution_ticks <= u64::MAX,
        (2 * params.n_bins_side) * (2 * params.n_bins_side) <= usize::MAX,
        16777216 * words@.len() <= u64::MAX,
    ensures
        ({
            let evs = decoded_events(
                file_record_type(file_ptu(*f)),
                words@,
                file_ptu(*f).sync_period_ps,
                file_ptu(*f).dtime_res_ps,
            );
            r matches Ok(g) && g.hist@ == g3_fold(
                evs,
                evs.len() as int,
                *params,
                MAX_BUFFER_SIZE as nat,
            ).hist && g.hist@.len() == (2 * params.n_bins_side) * (2 * params.n_bins_side)
                && g.n_bins == 2 * params.n_bins_side
        }),
{
    let File::PTU(x) = f;
    let rt = match x.record_type() {
        Ok(rt) => rt,
        Err(e) => {
            return Err(e);
        },
    };
    let events = decode_stream(rt, words, x.sync_period_ps, x.dtime_res_ps);
    Ok(g3_events(&events, params))
}

} // verus!
