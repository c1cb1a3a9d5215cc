//! Synchronized third-order autocorrelation: the delays of clicks on two
//! channels behind the most recent sync click, folded modulo the sync
//! period into a square histogram of non-negative delays. Only the two
//! click orderings ending in a sync click are counted.
use crate::circular_buffer::ring_push;
use crate::colored_circular_buffer::CCircularBuffer;
use crate::errors::Error;
use crate::g3::{hist2_bump, lemma_grid_index};
use crate::headers::{file_ptu, File, RecordType};
use crate::ptu::{file_record_type, record_type_of_code};
use crate::streamers::{decode_stream, decoded_events, stream_fits};
use crate::{make_zero_hist, rel_sorted_3, zero_hist, TTTRRecord};
use vstd::prelude::*;

verus! {

pub const MAX_BUFFER_SIZE: usize = 4096;

/// Parameters for the synced g3 algorithm: the histogram spans one sync
/// period per axis with `n_bins` bins, each `sync_period / n_bins`
/// picoseconds wide.
pub struct G3SyncParams {
    pub channel_sync: i32,
    pub channel_1: i32,
    pub channel_2: i32,
    pub n_bins: u64,
}

/// Result from the synced g3 algorithm: a square matrix stored row-major,
/// first index tau_1, second tau_2, side length `n_bins`.
pub struct G3SyncResult {
    pub hist: Vec<u64>,
    pub n_bins: usize,
}

/// File one delay pair, each folded modulo the sync period; out-of-range
/// bins are dropped. A counted pair stops the inner walk (second
/// component true).
pub open spec fn g3sync_count(hist: Seq<u64>, tau1: int, tau2: int, sp: u64, nb: u64) -> (
    Seq<u64>,
    bool,
) {
    let res = sp as int / nb as int;
    let idx1 = (tau1 % (sp as int)) / res;
    let idx2 = (tau2 % (sp as int)) / res;
    if 0 <= idx1 < nb && 0 <= idx2 < nb {
        (hist2_bump(hist, idx1, idx2, nb as int), true)
    } else {
        (hist, false)
    }
}

/// Dispatch one ordered click triple: only the two permutations whose
/// oldest click is a sync click are counted, with tau_1 always the delay
/// of the channel-1 click and tau_2 that of the channel-2 click.
pub open spec fn g3sync_case(
    hist: Seq<u64>,
    d23: int,
    d13: int,
    c1: i32,
    c2: i32,
    c3: i32,
    p: G3SyncParams,
    sp: u64,
) -> (Seq<u64>, bool) {
    if c1 == p.channel_1 {
        if c2 == p.channel_2 && c3 == p.channel_sync {
            g3sync_count(hist, d13, d23, sp, p.n_bins)
        } else {
            (hist, false)
        }
    } else if c1 == p.channel_2 {
        if c2 == p.channel_1 && c3 == p.channel_sync {
            g3sync_count(hist, d23, d13, sp, p.n_bins)
        } else {
            (hist, false)
        }
    } else {
        (hist, false)
    }
}

/// Walk the whole buffer newest-first as the third click of the triple.
pub open spec fn g3sync_inner(
    hist: Seq<u64>,
    buf: Seq<(u64, i32)>,
    t1: u64,
    c1: i32,
    t2: u64,
    c2: i32,
    p: G3SyncParams,
    sp: u64,
) -> Seq<u64>
    decreases buf.len(),
{
    if buf.len() == 0 {
        hist
    } else {
        let (t3, c3) = buf.last();
        if t3 >= t2 {
            g3sync_inner(hist, buf.drop_last(), t1, c1, t2, c2, p, sp)
        } else {
            let (h2, stop) = g3sync_case(hist, t2 - t3, t1 - t3, c1, c2, c3, p, sp);
            if stop {
                h2
            } else {
                g3sync_inner(h2, buf.drop_last(), t1, c1, t2, c2, p, sp)
            }
        }
    }
}

/// Walk the buffer newest-first as the second click of the triple; the
/// first second-click more than one sync period away stops the walk.
pub open spec fn g3sync_outer(
    hist: Seq<u64>,
    buf2: Seq<(u64, i32)>,
    full: Seq<(u64, i32)>,
    t1: u64,
    c1: i32,
    p: G3SyncParams,
    sp: u64,
) -> Seq<u64>
    decreases buf2.len(),
{
    if buf2.len() == 0 {
        hist
    } else {
        let (t2, c2) = buf2.last();
        if t1 - t2 > sp {
            hist
        } else {
            g3sync_outer(
                g3sync_inner(hist, full, t1, c1, t2, c2, p, sp),
                buf2.drop_last(),
                full,
                t1,
                c1,
                p,
                sp,
            )
        }
    }
}

pub struct G3SyncState {
    pub buf: Seq<(u64, i32)>,
    pub hist: Seq<u64>,
}

/// One event: a click on a configured channel (sync included) counts its
/// delay pairs against the buffered clicks and then joins the buffer.
pub open spec fn g3sync_step(st: G3SyncState, ev: TTTRRecord, p: G3SyncParams, sp: u64, cap: nat) -> G3SyncState {
    if ev.channel == p.channel_sync || ev.channel == p.channel_1 || ev.channel == p.channel_2 {
        G3SyncState {
            buf: ring_push(st.buf, (ev.tof, ev.channel), cap),
            hist: g3sync_outer(st.hist, st.buf, st.buf, ev.tof, ev.channel, p, sp),
        }
    } else {
        st
    }
}

/// The state after the first `n` events of the stream.
pub open spec fn g3sync_fold(
    events: Seq<TTTRRecord>,
    n: int,
    p: G3SyncParams,
    sp: u64,
    cap: nat,
) -> G3SyncState
    decreases n,
{
    if n <= 0 {
        G3SyncState { buf: Seq::empty(), hist: zero_hist((p.n_bins * p.n_bins) as nat) }
    } else {
        g3sync_step(g3sync_fold(events, n - 1, p, sp, cap), events[n - 1], p, sp, cap)
    }
}

/// One dispatched triple adds at most one count and keeps the histogram
/// size.
pub proof fn lemma_g3sync_case_bounds(
    hist: Seq<u64>,
    d23: int,
    d13: int,
    c1: i32,
    c2: i32,
    c3: i32,
    p: G3SyncParams,
    sp: u64,
)
    ensures
        g3sync_case(hist, d23, d13, c1, c2, c3, p, sp).0.len() == hist.len(),
        forall|k: int|
            0 <= k < hist.len() ==> g3sync_case(hist, d23, d13, c1, c2, c3, p, sp).0[k] <= hist[k]
                + 1,
{
    assert forall|h: Seq<u64>, idx: int, k: int|
        0 <= k < h.len() implies #[trigger] crate::hist_bump(h, idx)[k] <= h[k] + 1 by {
        if 0 <= idx < h.len() && k == idx {
            let x = h[idx];
            assert((x + 1) as u64 <= x + 1) by (bit_vector);
        }
    }
}

/// An inner walk adds at most one count per buffered click.
pub proof fn lemma_g3sync_inner_bounds(
    hist: Seq<u64>,
    buf: Seq<(u64, i32)>,
    t1: u64,
    c1: i32,
    t2: u64,
    c2: i32,
    p: G3SyncParams,
    sp: u64,
)
    ensures
        g3sync_inner(hist, buf, t1, c1, t2, c2, p, sp).len() == hist.len(),
        forall|k: int|
            0 <= k < hist.len() ==> g3sync_inner(hist, buf, t1, c1, t2, c2, p, sp)[k] <= hist[k]
                + buf.len(),
    decreases buf.len(),
{
    if buf.len() > 0 {
        let (t3, c3) = buf.last();
        if t3 >= t2 {
            lemma_g3sync_inner_bounds(hist, buf.drop_last(), t1, c1, t2, c2, p, sp);
        } else {
            let (h2, stop) = g3sync_case(hist, t2 - t3, t1 - t3, c1, c2, c3, p, sp);
            lemma_g3sync_case_bounds(hist, t2 - t3, t1 - t3, c1, c2, c3, p, sp);
            if !stop {
                lemma_g3sync_inner_bounds(h2, buf.drop_last(), t1, c1, t2, c2, p, sp);
            }
        }
    }
}

/// An outer walk adds at most one count per pair of buffered clicks.
pub proof fn lemma_g3sync_outer_bounds(
    hist: Seq<u64>,
    buf2: Seq<(u64, i32)>,
    full: Seq<(u64, i32)>,
    t1: u64,
    c1: i32,
    p: G3SyncParams,
    sp: u64,
)
    ensures
        g3sync_outer(hist, buf2, full, t1, c1, p, sp).len() == hist.len(),
        forall|k: int|
            0 <= k < hist.len() ==> g3sync_outer(hist, buf2, full, t1, c1, p, sp)[k] <= hist[k]
                + buf2.len() * full.len(),
    decreases buf2.len(),
{
    vstd::arithmetic::mul::lemma_mul_nonnegative(buf2.len() as int, full.len() as int);
    if buf2.len() > 0 {
        let (t2, c2) = buf2.last();
        if !(t1 - t2 > sp) {
            let h2 = g3sync_inner(hist, full, t1, c1, t2, c2, p, sp);
            lemma_g3sync_inner_bounds(hist, full, t1, c1, t2, c2, p, sp);
            lemma_g3sync_outer_bounds(h2, buf2.drop_last(), full, t1, c1, p, sp);
            vstd::arithmetic::mul::lemma_mul_is_distributive_sub(
                full.len() as int,
                buf2.len() as int,
                1,
            );
            vstd::arithmetic::mul::lemma_mul_is_commutative(
                buf2.len() as int - 1,
                full.len() as int,
            );
            vstd::arithmetic::mul::lemma_mul_is_commutative(buf2.len() as int, full.len() as int);
            vstd::arithmetic::mul::lemma_mul_basics(full.len() as int);
        }
    }
}

/// Folding `n` events keeps the square histogram's size, keeps the buffer
/// within capacity, and adds at most `cap * cap` counts per event.
pub proof fn lemma_g3sync_bounds(events: Seq<TTTRRecord>, n: int, p: G3SyncParams, sp: u64, cap: nat)
    requires
        0 <= n <= events.len(),
        cap >= 1,
    ensures
        g3sync_fold(events, n, p, sp, cap).hist.len() == p.n_bins * p.n_bins,
        g3sync_fold(events, n, p, sp, cap).buf.len() <= cap,
        forall|k: int|
            0 <= k < g3sync_fold(events, n, p, sp, cap).hist.len() ==> g3sync_fold(
                events,
                n,
                p,
                sp,
                cap,
            ).hist[k] <= (cap * cap) * n,
    decreases n,
{
    let capsq = (cap * cap) as int;
    vstd::arithmetic::mul::lemma_mul_basics(capsq);
    vstd::arithmetic::mul::lemma_mul_nonnegative(cap as int, cap as int);
    if n > 0 {
        lemma_g3sync_bounds(events, n - 1, p, sp, cap);
        let st = g3sync_fold(events, n - 1, p, sp, cap);
        let ev = events[n - 1];
        vstd::arithmetic::mul::lemma_mul_is_distributive_add(capsq, n - 1, 1);
        if ev.channel == p.channel_sync || ev.channel == p.channel_1 || ev.channel
            == p.channel_2 {
            lemma_g3sync_outer_bounds(st.hist, st.buf, st.buf, ev.tof, ev.channel, p, sp);
            vstd::arithmetic::mul::lemma_mul_upper_bound(
                st.buf.len() as int,
                cap as int,
                st.buf.len() as int,
                cap as int,
            );
            let hn = g3sync_fold(events, n, p, sp, cap).hist;
            assert(hn == g3sync_outer(st.hist, st.buf, st.buf, ev.tof, ev.channel, p, sp));
            assert forall|k: int| 0 <= k < hn.len() implies hn[k] <= (cap * cap) * n by {
                assert(hn[k] <= st.hist[k] + st.buf.len() * st.buf.len());
                assert(st.hist[k] <= (cap * cap) * (n - 1));
                assert(st.buf.len() * st.buf.len() <= cap * cap);
            }
        }
    }
}

/// File one delay pair folded modulo the sync period; reports whether the
/// pair was counted (which stops the inner walk).
fn g3sync_file(
    hist: &mut Vec<u64>,
    tau1: u64,
    tau2: u64,
    sync_period: u64,
    resolution: u64,
    nb: u64,
) -> (stop: bool)
    requires
        sync_period >= 1,
        nb >= 1,
        resolution == sync_period / nb,
        resolution >= 1,
        nb <= usize::MAX,
        old(hist)@.len() == nb * nb,
        forall|k: int| 0 <= k < old(hist)@.len() ==> old(hist)@[k] + 1 <= u64::MAX,
    ensures
        final(hist)@ == g3sync_count(old(hist)@, tau1 as int, tau2 as int, sync_period, nb).0,
        stop == g3sync_count(old(hist)@, tau1 as int, tau2 as int, sync_period, nb).1,
{
    let hl = hist.len();
    let idx1 = (tau1 % sync_period) / resolution;
    let idx2 = (tau2 % sync_period) / resolution;
    if idx1 < nb && idx2 < nb {
        proof {
            lemma_grid_index(idx1 as int, idx2 as int, nb as int);
        }
        let idx = (idx1 * nb + idx2) as usize;
        let v = hist[idx];
        hist.set(idx, v + 1);
        true
    } else {
        false
    }
}

/// Walk the whole buffer as the third click for a fixed first and second
/// click, accumulating into `hist`.
fn g3sync_inner_accumulate(
    hist: &mut Vec<u64>,
    buf: &CCircularBuffer,
    t1: u64,
    c1: i32,
    t2: u64,
    c2: i32,
    sync_period: u64,
    resolution: u64,
    p: &G3SyncParams,
)
    requires
        buf.wf(),
        sync_period >= 1,
        p.n_bins >= 1,
        resolution == sync_period / p.n_bins,
        resolution >= 1,
        p.n_bins <= usize::MAX,
        t2 <= t1,
        forall|k: int| 0 <= k < buf@.len() ==> (#[trigger] buf@[k]).0 <= t1,
        old(hist)@.len() == p.n_bins * p.n_bins,
        forall|k: int| 0 <= k < old(hist)@.len() ==> old(hist)@[k] + buf@.len() <= u64::MAX,
    ensures
        final(hist)@ == g3sync_inner(old(hist)@, buf@, t1, c1, t2, c2, *p, sync_period),
        final(hist)@.len() == old(hist)@.len(),
        forall|k: int| 0 <= k < old(hist)@.len() ==> final(hist)@[k] <= old(hist)@[k] + buf@.len(),
{
    let ghost h0 = old(hist)@;
    let ghost bufv = buf@;
    let it = buf.iter();
    let m = it.len();
    proof {
        assert(bufv.take(m as int) =~= bufv);
    }
    let mut j: usize = 0;
    while j < m
        invariant_except_break
            j <= m,
            m == bufv.len(),
            it@.len() == m,
            forall|k: int| 0 <= k < m ==> it@[k] == bufv[m - 1 - k],
            forall|k: int| 0 <= k < m ==> (#[trigger] bufv[k]).0 <= t1,
            t2 <= t1,
            sync_period >= 1,
            p.n_bins >= 1,
            resolution == sync_period / p.n_bins,
            resolution >= 1,
            p.n_bins <= usize::MAX,
            h0.len() == p.n_bins * p.n_bins,
            hist@.len() == h0.len(),
            forall|k: int| 0 <= k < h0.len() ==> h0[k] + m <= u64::MAX,
            forall|k: int| 0 <= k < h0.len() ==> hist@[k] <= h0[k] + j,
            g3sync_inner(h0, bufv, t1, c1, t2, c2, *p, sync_period) == g3sync_inner(
                hist@,
                bufv.take(m - j),
                t1,
                c1,
                t2,
                c2,
                *p,
                sync_period,
            ),
        ensures
            hist@.len() == h0.len(),
            forall|k: int| 0 <= k < h0.len() ==> hist@[k] <= h0[k] + m,
            g3sync_inner(h0, bufv, t1, c1, t2, c2, *p, sync_period) == hist@,
        decreases m - j,
    {
        proof {
            assert(bufv.take(m - j).drop_last() =~= bufv.take(m - j - 1));
            assert(bufv.take(m - j).last() == it@[j as int]);
        }
        let (t3, c3) = it[j];
        proof {
            assert((t3, c3) == bufv[m - 1 - j]);
            assert(t3 <= t1);
        }
        if t3 >= t2 {
            // time ordering is broken when walking the shared buffer
            j = j + 1;
        } else {
            let d23 = t2 - t3;
            let d13 = t1 - t3;
            proof {
                assert forall|k: int| 0 <= k < hist@.len() implies hist@[k] + 1 <= u64::MAX by {
                    assert(hist@[k] <= h0[k] + j);
                    assert(h0[k] + m <= u64::MAX);
                }
            }
            let ghost hist_before = hist@;
            let ghost case = g3sync_case(
                hist_before,
                d23 as int,
                d13 as int,
                c1,
                c2,
                c3,
                *p,
                sync_period,
            );
            let mut stop = false;
            if c1 == p.channel_1 {
                if c2 == p.channel_2 && c3 == p.channel_sync {
                    stop = g3sync_file(hist, d13, d23, sync_period, resolution, p.n_bins);
                }
            } else if c1 == p.channel_2 {
                if c2 == p.channel_1 && c3 == p.channel_sync {
                    stop = g3sync_file(hist, d23, d13, sync_period, resolution, p.n_bins);
                }
            }
            proof {
                assert(hist@ == case.0);
                assert(stop == case.1);
            }
            if stop {
                break ;
            }
            j = j + 1;
        }
    }
}

/// Walk the buffer as the second click for a fixed first click,
/// accumulating into `hist`.
fn g3sync_outer_accumulate(
    hist: &mut Vec<u64>,
    buf: &CCircularBuffer,
    t1: u64,
    c1: i32,
    sync_period: u64,
    resolution: u64,
    p: &G3SyncParams,
)
    requires
        buf.wf(),
        sync_period >= 1,
        p.n_bins >= 1,
        resolution == sync_period / p.n_bins,
        resolution >= 1,
        p.n_bins <= usize::MAX,
        forall|k: int| 0 <= k < buf@.len() ==> (#[trigger] buf@[k]).0 <= t1,
        old(hist)@.len() == p.n_bins * p.n_bins,
        forall|k: int|
            0 <= k < old(hist)@.len() ==> old(hist)@[k] + buf@.len() * buf@.len() <= u64::MAX,
    ensures
        final(hist)@ == g3sync_outer(old(hist)@, buf@, buf@, t1, c1, *p, sync_period),
        final(hist)@.len() == old(hist)@.len(),
        forall|k: int|
            0 <= k < old(hist)@.len() ==> final(hist)@[k] <= old(hist)@[k] + buf@.len()
                * buf@.len(),
{
    let ghost h0 = old(hist)@;
    let ghost bufv = buf@;
    let it = buf.iter();
    let m = it.len();
    proof {
        assert(bufv.take(m as int) =~= bufv);
        vstd::arithmetic::mul::lemma_mul_nonnegative(m as int, m as int);
    }
    let mut j: usize = 0;
    while j < m
        invariant_except_break
            j <= m,
            m == bufv.len(),
            it@.len() == m,
            forall|k: int| 0 <= k < m ==> it@[k] == bufv[m - 1 - k],
            forall|k: int| 0 <= k < m ==> (#[trigger] bufv[k]).0 <= t1,
            buf.wf(),
            bufv == buf@,
            sync_period >= 1,
            p.n_bins >= 1,
            resolution == sync_period / p.n_bins,
            resolution >= 1,
            p.n_bins <= usize::MAX,
            h0.len() == p.n_bins * p.n_bins,
            hist@.len() == h0.len(),
            forall|k: int| 0 <= k < h0.len() ==> h0[k] + m * m <= u64::MAX,
            forall|k: int| 0 <= k < h0.len() ==> hist@[k] <= h0[k] + j * m,
            g3sync_outer(h0, bufv, bufv, t1, c1, *p, sync_period) == g3sync_outer(
                hist@,
                bufv.take(m - j),
                bufv,
                t1,
                c1,
                *p,
                sync_period,
            ),
        ensures
            hist@.len() == h0.len(),
            forall|k: int| 0 <= k < h0.len() ==> hist@[k] <= h0[k] + m * m,
            g3sync_outer(h0, bufv, bufv, t1, c1, *p, sync_period) == hist@,
        decreases m - j,
    {
        proof {
            assert(bufv.take(m - j).drop_last() =~= bufv.take(m - j - 1));
            assert(bufv.take(m - j).last() == it@[j as int]);
            vstd::arithmetic::mul::lemma_mul_is_distributive_add_other_way(m as int, j as int, 1);
            vstd::arithmetic::mul::lemma_mul_basics(m as int);
            vstd::arithmetic::mul::lemma_mul_inequality(j + 1, m as int, m as int);
            vstd::arithmetic::mul::lemma_mul_nonnegative(j as int, m as int);
        }
        let (t2, c2) = it[j];
        proof {
            assert((t2, c2) == bufv[m - 1 - j]);
            assert(t2 <= t1);
        }
        let d12 = t1 - t2;
        if d12 > sync_period {
            break ;
        }
        proof {
            assert forall|k: int|
                0 <= k < hist@.len() implies hist@[k] + bufv.len() <= u64::MAX by {
                assert(hist@[k] <= h0[k] + j * m);
                assert(h0[k] + m * m <= u64::MAX);
                assert(j * m + m <= m * m);
            }
        }
        let ghost hist_mid = hist@;
        g3sync_inner_accumulate(hist, buf, t1, c1, t2, c2, sync_period, resolution, p);
        proof {
            assert(g3sync_inner(hist_mid, bufv, t1, c1, t2, c2, *p, sync_period) == hist@);
        }
        j = j + 1;
    }
}

/// Arithmetic bridge: a square histogram that has absorbed `i` events
/// stays far enough below the 64-bit ceiling to absorb one more buffer's
/// worth of click pairs.
proof fn lemma_g3sync_call_bound(hist: Seq<u64>, buflen: nat, i: int, n: int)
    requires
        0 <= i < n,
        buflen <= 4096,
        forall|k: int| 0 <= k < hist.len() ==> hist[k] <= 16777216 * i,
        16777216 * n <= u64::MAX,
    ensures
        forall|k: int| 0 <= k < hist.len() ==> hist[k] + buflen * buflen <= u64::MAX,
{
    assert forall|k: int| 0 <= k < hist.len() implies hist[k] + buflen * buflen <= u64::MAX by {
        vstd::arithmetic::mul::lemma_mul_upper_bound(buflen as int, 4096, buflen as int, 4096);
        vstd::arithmetic::mul::lemma_mul_is_distributive_add(16777216, i, 1);
        vstd::arithmetic::mul::lemma_mul_basics(16777216);
        vstd::arithmetic::mul::lemma_mul_inequality(i + 1, n, 16777216);
        vstd::arithmetic::mul::lemma_mul_is_commutative(i + 1, 16777216);
        vstd::arithmetic::mul::lemma_mul_is_commutative(n, 16777216);
    }
}

/// Compute the synchronized third-order histogram of a decoded stream.
pub fn g3_sync_events(events: &Vec<TTTRRecord>, params: &G3SyncParams, sync_period: u64) -> (r:
    G3SyncResult)
    requires
        rel_sorted_3(events@, params.channel_sync, params.channel_1, params.channel_2),
        params.n_bins >= 1,
        sync_period / params.n_bins >= 1,
        params.n_bins * params.n_bins <= usize::MAX,
        16777216 * events@.len() <= u64::MAX,
    ensures
        r.hist@ == g3sync_fold(
            events@,
            events@.len() as int,
            *params,
            sync_period,
            MAX_BUFFER_SIZE as nat,
        ).hist,
        r.hist@.len() == params.n_bins * params.n_bins,
        r.n_bins == params.n_bins,
{
    let ghost p = *params;
    let ghost cap = MAX_BUFFER_SIZE as nat;
    let n = events.len();
    let nb = params.n_bins;
    proof {
        vstd::arithmetic::mul::lemma_mul_ordering(nb as int, nb as int);
    }
    let n_bins = nb as usize;
    let resolution = sync_period / nb;
    let mut hist = make_zero_hist((nb * nb) as usize);
    let mut click_buffer = CCircularBuffer::new(MAX_BUFFER_SIZE);
    let mut i: usize = 0;
    while i < n
        invariant
            n == events@.len(),
            i <= n,
            p == *params,
            rel_sorted_3(events@, p.channel_sync, p.channel_1, p.channel_2),
            nb == p.n_bins,
            nb >= 1,
            sync_period >= 1,
            resolution == sync_period / nb,
            resolution >= 1,
            nb * nb <= usize::MAX,
            nb <= usize::MAX,
            16777216 * n <= u64::MAX,
            cap == 4096,
            click_buffer.wf(),
            click_buffer.cap() == cap,
            click_buffer@ == g3sync_fold(events@, i as int, p, sync_period, cap).buf,
            hist@ == g3sync_fold(events@, i as int, p, sync_period, cap).hist,
            hist@.len() == nb * nb,
            forall|j: int, k: int|
                0 <= k < click_buffer@.len() && i <= j < n && ((#[trigger] events@[j]).channel
                    == p.channel_sync || events@[j].channel == p.channel_1 || events@[j].channel
                    == p.channel_2) ==> (#[trigger] click_buffer@[k]).0 <= events@[j].tof,
        decreases n - i,
    {
        proof {
            lemma_g3sync_bounds(events@, i as int, p, sync_period, cap);
        }
        let ev = events[i];
        if ev.channel == params.channel_sync || ev.channel == params.channel_1 || ev.channel
            == params.channel_2 {
            proof {
                lemma_g3sync_call_bound(hist@, click_buffer@.len(), i as int, n as int);
            }
            g3sync_outer_accumulate(
                &mut hist,
                &click_buffer,
                ev.tof,
                ev.channel,
                sync_period,
                resolution,
                params,
            );
            click_buffer.push(ev.tof, ev.channel);
        }
        i = i + 1;
    }
    G3SyncResult { hist, n_bins }
}

/// Synchronized third-order coincidences over a file's record words.
/// Only the T3 stream carries the sync clicks the algorithm needs; every
/// other format is refused.
pub fn g3_sync(f: &File, params: &G3SyncParams, words: &Vec<u32>) -> (r: Result<
    G3SyncResult,
    Error,
>)
    requires
        record_type_of_code(file_ptu(*f).rec_type_code) is Some,
        file_record_type(file_ptu(*f)) != RecordType::NotImplemented,
        stream_fits(
            file_record_type(file_ptu(*f)),
            words@,
            file_ptu(*f).sync_period_ps,
            file_ptu(*f).dtime_res_ps,
        ),
        file_record_type(file_ptu(*f)) == RecordType::HHT3_HH2 ==> rel_sorted_3(
            decoded_events(
                RecordType::HHT3_HH2,
                words@,
                file_ptu(*f).sync_period_ps,
                file_ptu(*f).dtime_res_ps,
            ),
            params.channel_sync,
            params.channel_1,
            params.channel_2,
        ) && params.n_bins >= 1 && file_ptu(*f).sync_period_ps / params.n_bins >= 1
            && params.n_bins * params.n_bins <= usize::MAX && 16777216 * words@.len()
            <= u64::MAX,
    ensures
        ({
            let ft = file_record_type(file_ptu(*f));
            let evs = decoded_events(
                ft,
                words@,
                file_ptu(*f).sync_period_ps,
                file_ptu(*f).dtime_res_ps,
            );
            if ft == RecordType::HHT3_HH2 {
                r matches Ok(g) && g.hist@ == g3sync_fold(
                    evs,
                    evs.len() as int,
                    *params,
                    file_ptu(*f).sync_period_ps,
                    MAX_BUFFER_SIZE as nat,
                ).hist && g.hist@.len() == params.n_bins * params.n_bins && g.n_bins
                    == params.n_bins
            } else {
                r matches Err(e) && e matches Error::NotImplemented(_)
            }
        }),
{
    let File::PTU(x) = f;
    let rt = match x.record_type() {
        Ok(rt) => rt,
        Err(e) => {
            return Err(e);
        },
    };
    match rt {
        RecordType::HHT3_HH2 => {
            let events = decode_stream(rt, words, x.sync_period_ps, x.dtime_res_ps);
            Ok(g3_sync_events(&events, params, x.sync_period_ps))
        },
        _ => Err(
            Error::NotImplemented(
                "The synced g3 algorithm is only supported in T3 mode".to_owned(),
            ),
        ),
    }
}

} // verus!
