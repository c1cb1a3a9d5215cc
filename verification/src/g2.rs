//! Second-order autocorrelation (g2): for every click, the delays to the
//! buffered earlier clicks of the other channel are filed into a histogram
//! of `2 * n_bins_side` bins around zero delay. Two flavours share the
//! core loop: the asymmetric engine runs over one record range, the
//! symmetric engine accumulates several disjoint ranges into one
//! histogram, resetting the click buffers between ranges.
use crate::circular_buffer::{ring_push, CircularBuffer};
use crate::errors::Error;
use crate::headers::{file_ptu, File, RecordType};
use crate::ptu::{file_record_type, record_type_of_code};
use crate::streamers::{decode_stream, decoded_events, stream_fits};
use crate::{hist_bump, lemma_window_index, make_zero_hist, rel_sorted_2, zero_hist, TTTRRecord};
use vstd::prelude::*;

verus! {

pub const MAX_BUFFER_SIZE: usize = 4096;

#[derive(Debug, Clone, Copy, PartialEq, Eq, Structural)]
pub enum G2Mode {
    Asymmetric,
    Symmetric,
}

/// Parameters for the g2 algorithm, in ticks of the stream's time
/// resolution: `n_bins_side` bins on each side of zero delay, each
/// `resolution_ticks` wide.
pub struct G2Params {
    pub channel_1: i32,
    pub channel_2: i32,
    pub n_bins_side: u64,
    pub resolution_ticks: u64,
}

/// Result from the g2 algorithm.
pub struct G2Result {
    pub hist: Vec<u64>,
}

/// Walk a buffer newest-first and file each delay inside the correlation
/// window; the first delay at or past the window stops the walk, which is
/// sound because older buffered clicks only lie further away.
pub open spec fn g2_scan(
    hist: Seq<u64>,
    buf: Seq<u64>,
    t: u64,
    nb: u64,
    res: u64,
    positive: bool,
) -> Seq<u64>
    decreases buf.len(),
{
    if buf.len() == 0 {
        hist
    } else {
        let delta = t - buf.last();
        if 0 <= delta < nb * res {
            let q = delta / (res as int);
            let idx = if positive {
                nb + q
            } else {
                nb - q - 1
            };
            g2_scan(hist_bump(hist, idx), buf.drop_last(), t, nb, res, positive)
        } else {
            hist
        }
    }
}

pub struct G2State {
    pub buf_1: Seq<u64>,
    pub buf_2: Seq<u64>,
    pub hist: Seq<u64>,
}

/// One event: a click on channel 1 joins buffer 1 and counts its delays
/// against the buffered channel-2 clicks below the central bin; a click on
/// channel 2 mirrors this above it. Other channels pass through.
pub open spec fn g2_step(st: G2State, ev: TTTRRecord, p: G2Params, cap: nat) -> G2State {
    if ev.channel == p.channel_1 {
        G2State {
            buf_1: ring_push(st.buf_1, ev.tof, cap),
            buf_2: st.buf_2,
            hist: g2_scan(st.hist, st.buf_2, ev.tof, p.n_bins_side, p.resolution_ticks, false),
        }
    } else if ev.channel == p.channel_2 {
        G2State {
            buf_1: st.buf_1,
            buf_2: ring_push(st.buf_2, ev.tof, cap),
            hist: g2_scan(st.hist, st.buf_1, ev.tof, p.n_bins_side, p.resolution_ticks, true),
        }
    } else {
        st
    }
}

/// The state after the first `n` events, seeded with the histogram
/// `hist0` (the symmetric engine carries it across ranges).
pub open spec fn g2_fold(
    events: Seq<TTTRRecord>,
    n: int,
    p: G2Params,
    cap: nat,
    hist0: Seq<u64>,
) -> G2State
    decreases n,
{
    if n <= 0 {
        G2State { buf_1: Seq::empty(), buf_2: Seq::empty(), hist: hist0 }
    } else {
        g2_step(g2_fold(events, n - 1, p, cap, hist0), events[n - 1], p, cap)
    }
}

/// A scan adds at most one count per buffered click and never resizes the
/// histogram.
pub proof fn lemma_g2_scan_bounds(
    hist: Seq<u64>,
    buf: Seq<u64>,
    t: u64,
    nb: u64,
    res: u64,
    positive: bool,
)
    ensures
        g2_scan(hist, buf, t, nb, res, positive).len() == hist.len(),
        forall|k: int|
            0 <= k < hist.len() ==> g2_scan(hist, buf, t, nb, res, positive)[k] <= hist[k]
                + buf.len(),
    decreases buf.len(),
{
    if buf.len() > 0 {
        let delta = t - buf.last();
        if 0 <= delta < nb * res {
            let q = delta / (res as int);
            let idx = if positive {
                nb + q
            } else {
                nb - q - 1
            };
            lemma_g2_scan_bounds(hist_bump(hist, idx), buf.drop_last(), t, nb, res, positive);
            let hb = hist_bump(hist, idx);
            assert forall|k: int| 0 <= k < hist.len() implies hb[k] <= hist[k] + 1 by {
                if 0 <= idx < hist.len() && k == idx {
                    let x = hist[idx];
                    assert((x + 1) as u64 <= x + 1) by (bit_vector);
                }
            }
        }
    }
}

/// Folding `n` events keeps the histogram size, keeps both buffers within
/// capacity, and adds at most `cap` counts per event to any bin.
pub proof fn lemma_g2_bounds(events: Seq<TTTRRecord>, n: int, p: G2Params, cap: nat, hist0: Seq<
    u64,
>)
    requires
        0 <= n <= events.len(),
        cap >= 1,
    ensures
        g2_fold(events, n, p, cap, hist0).hist.len() == hist0.len(),
        g2_fold(events, n, p, cap, hist0).buf_1.len() <= cap,
        g2_fold(events, n, p, cap, hist0).buf_2.len() <= cap,
        forall|k: int|
            0 <= k < hist0.len() ==> g2_fold(events, n, p, cap, hist0).hist[k] <= hist0[k] + cap
                * n,
    decreases n,
{
    if n > 0 {
        lemma_g2_bounds(events, n - 1, p, cap, hist0);
        let st = g2_fold(events, n - 1, p, cap, hist0);
        let ev = events[n - 1];
        vstd::arithmetic::mul::lemma_mul_is_distributive_add(cap as int, n - 1, 1);
        vstd::arithmetic::mul::lemma_mul_basics(cap as int);
        if ev.channel == p.channel_1 {
            lemma_g2_scan_bounds(st.hist, st.buf_2, ev.tof, p.n_bins_side, p.resolution_ticks,
                false);
        } else if ev.channel == p.channel_2 {
            lemma_g2_scan_bounds(st.hist, st.buf_1, ev.tof, p.n_bins_side, p.resolution_ticks,
                true);
        }
    } else {
        vstd::arithmetic::mul::lemma_mul_basics(cap as int);
    }
}

/// Accumulate into `hist` the windowed delays between `t` and the buffered
/// clicks, walking the buffer newest-first and stopping at the first delay
/// past the window.
fn g2_accumulate(
    hist: &mut Vec<u64>,
    buf: &CircularBuffer,
    t: u64,
    nb: u64,
    res: u64,
    positive: bool,
)
    requires
        buf.wf(),
        nb * res <= u64::MAX,
        2 * nb == old(hist)@.len(),
        forall|k: int| 0 <= k < buf@.len() ==> buf@[k] <= t,
        forall|k: int| 0 <= k < old(hist)@.len() ==> old(hist)@[k] + buf@.len() <= u64::MAX,
    ensures
        final(hist)@ == g2_scan(old(hist)@, buf@, t, nb, res, positive),
        final(hist)@.len() == old(hist)@.len(),
        forall|k: int| 0 <= k < old(hist)@.len() ==> final(hist)@[k] <= old(hist)@[k] + buf@.len(),
{
    let ghost h0 = old(hist)@;
    let ghost bufv = buf@;
    let it = buf.iter();
    let m = it.len();
    let hist_len = hist.len();
    let correlation_window = nb * res;
    proof {
        assert(bufv.take(m as int) =~= bufv);
    }
    let mut j: usize = 0;
    while j < m
        invariant_except_break
            j <= m,
            m == bufv.len(),
            it@.len() == m,
            forall|k: int| 0 <= k < m ==> it@[k] == bufv[m - 1 - k],
            forall|k: int| 0 <= k < m ==> bufv[k] <= t,
            nb * res <= u64::MAX,
            correlation_window == nb * res,
            2 * nb == h0.len(),
            hist_len == h0.len(),
            hist@.len() == h0.len(),
            forall|k: int| 0 <= k < h0.len() ==> h0[k] + m <= u64::MAX,
            forall|k: int| 0 <= k < h0.len() ==> hist@[k] <= h0[k] + j,
            g2_scan(h0, bufv, t, nb, res, positive) == g2_scan(
                hist@,
                bufv.take(m - j),
                t,
                nb,
                res,
                positive,
            ),
        ensures
            hist@.len() == h0.len(),
            forall|k: int| 0 <= k < h0.len() ==> hist@[k] <= h0[k] + m,
            g2_scan(h0, bufv, t, nb, res, positive) == hist@,
        decreases m - j,
    {
        proof {
            assert(bufv.take(m - j).drop_last() =~= bufv.take(m - j - 1));
            assert(bufv.take(m - j).last() == it@[j as int]);
        }
        let click = it[j];
        proof {
            assert(click == bufv[m - 1 - j]);
            assert(click <= t);
        }
        let delta = t - click;
        if delta < correlation_window {
            proof {
                lemma_window_index(delta, nb, res);
            }
            let q = delta / res;
            let idx = if positive {
                (nb + q) as usize
            } else {
                (nb - q - 1) as usize
            };
            let ghost hist_before = hist@;
            proof {
                assert(hist@[idx as int] <= h0[idx as int] + j);
                assert(h0[idx as int] + m <= u64::MAX);
            }
            let v = hist[idx];
            hist.set(idx, v + 1);
            proof {
                assert(hist@ == hist_bump(hist_before, idx as int));
                assert(g2_scan(hist_before, bufv.take(m - j), t, nb, res, positive) == g2_scan(
                    hist@,
                    bufv.take(m - j - 1),
                    t,
                    nb,
                    res,
                    positive,
                ));
            }
            j = j + 1;
        } else {
            break ;
        }
    }
}

/// Arithmetic bridge: a histogram that has absorbed `i` events stays far
/// enough below the 64-bit ceiling to absorb one more buffer's worth.
proof fn lemma_g2_call_bound(h0: Seq<u64>, hist: Seq<u64>, buflen: nat, i: int, n: int)
    requires
        hist.len() == h0.len(),
        0 <= i < n,
        buflen <= 4096,
        forall|k: int| 0 <= k < h0.len() ==> hist[k] <= h0[k] + 4096 * i,
        forall|k: int| 0 <= k < h0.len() ==> h0[k] + 4096 * n <= u64::MAX,
    ensures
        forall|k: int| 0 <= k < hist.len() ==> hist[k] + buflen <= u64::MAX,
{
    assert forall|k: int| 0 <= k < hist.len() implies hist[k] + buflen <= u64::MAX by {
        vstd::arithmetic::mul::lemma_mul_is_distributive_add(4096, i, 1);
        vstd::arithmetic::mul::lemma_mul_basics(4096);
        vstd::arithmetic::mul::lemma_mul_inequality(i + 1, n, 4096);
        vstd::arithmetic::mul::lemma_mul_is_commutative(i + 1, 4096);
        vstd::arithmetic::mul::lemma_mul_is_commutative(n, 4096);
    }
}

/// Run the g2 core loop over one decoded range, accumulating into `hist`.
pub fn g2_compute(events: &Vec<TTTRRecord>, params: &G2Params, hist: &mut Vec<u64>)
    requires
        rel_sorted_2(events@, params.channel_1, params.channel_2),
        params.n_bins_side * params.resolution_ticks <= u64::MAX,
        old(hist)@.len() == 2 * params.n_bins_side,
        forall|k: int|
            0 <= k < old(hist)@.len() ==> old(hist)@[k] + 4096 * events@.len() <= u64::MAX,
    ensures
        final(hist)@ == g2_fold(
            events@,
            events@.len() as int,
            *params,
            MAX_BUFFER_SIZE as nat,
            old(hist)@,
        ).hist,
        final(hist)@.len() == old(hist)@.len(),
{
    let ghost p = *params;
    let ghost h0 = old(hist)@;
    let ghost cap = MAX_BUFFER_SIZE as nat;
    let n = events.len();
    let mut buff_1 = CircularBuffer::new(MAX_BUFFER_SIZE);
    let mut buff_2 = CircularBuffer::new(MAX_BUFFER_SIZE);
    let mut i: usize = 0;
    while i < n
        invariant
            n == events@.len(),
            i <= n,
            p == *params,
            rel_sorted_2(events@, p.channel_1, p.channel_2),
            p.n_bins_side * p.resolution_ticks <= u64::MAX,
            h0.len() == 2 * p.n_bins_side,
            forall|k: int| 0 <= k < h0.len() ==> h0[k] + 4096 * n <= u64::MAX,
            buff_1.wf(),
            buff_2.wf(),
            buff_1.cap() == cap,
            buff_2.cap() == cap,
            cap == 4096,
            buff_1@ == g2_fold(events@, i as int, p, cap, h0).buf_1,
            buff_2@ == g2_fold(events@, i as int, p, cap, h0).buf_2,
            hist@ == g2_fold(events@, i as int, p, cap, h0).hist,
            hist@.len() == h0.len(),
            forall|j: int, k: int|
                0 <= k < buff_1@.len() && i <= j < n && ((#[trigger] events@[j]).channel
                    == p.channel_1 || events@[j].channel == p.channel_2) ==> #[trigger] buff_1@[k]
                    <= events@[j].tof,
            forall|j: int, k: int|
                0 <= k < buff_2@.len() && i <= j < n && ((#[trigger] events@[j]).channel
                    == p.channel_1 || events@[j].channel == p.channel_2) ==> #[trigger] buff_2@[k]
                    <= events@[j].tof,
        decreases n - i,
    {
        proof {
            lemma_g2_bounds(events@, i as int, p, cap, h0);
            assert(buff_1@.len() <= 4096 && buff_2@.len() <= 4096);
            lemma_g2_call_bound(h0, hist@, buff_1@.len(), i as int, n as int);
            lemma_g2_call_bound(h0, hist@, buff_2@.len(), i as int, n as int);
        }
        let ev = events[i];
        if ev.channel == params.channel_1 {
            buff_1.push(ev.tof);
            g2_accumulate(
                hist,
                &buff_2,
                ev.tof,
                params.n_bins_side,
                params.resolution_ticks,
                false,
            );
        } else if ev.channel == params.channel_2 {
            buff_2.push(ev.tof);
            g2_accumulate(
                hist,
                &buff_1,
                ev.tof,
                params.n_bins_side,
                params.resolution_ticks,
                true,
            );
        }
        i = i + 1;
    }
}

/// Run the asymmetric g2 engine over one decoded range.
pub fn g2_asymmetric_events(events: &Vec<TTTRRecord>, params: &G2Params) -> (r: G2Result)
    requires
        rel_sorted_2(events@, params.channel_1, params.channel_2),
        params.n_bins_side * params.resolution_ticks <= u64::MAX,
        2 * params.n_bins_side <= usize::MAX,
        4096 * events@.len() <= u64::MAX,
    ensures
        r.hist@ == g2_fold(
            events@,
            events@.len() as int,
            *params,
            MAX_BUFFER_SIZE as nat,
            zero_hist((2 * params.n_bins_side) as nat),
        ).hist,
        r.hist@.len() == 2 * params.n_bins_side,
{
    let mut hist = make_zero_hist((2 * params.n_bins_side) as usize);
    g2_compute(events, params, &mut hist);
    G2Result { hist }
}

/// The event ranges as plain sequences.
pub open spec fn ranges_deep(ranges: Seq<Vec<TTTRRecord>>) -> Seq<Seq<TTTRRecord>> {
    ranges.map_values(|v: Vec<TTTRRecord>| v@)
}

/// Total number of events over all ranges.
pub open spec fn ranges_total_len(rs: Seq<Seq<TTTRRecord>>) -> int
    decreases rs.len(),
{
    if rs.len() == 0 {
        0
    } else {
        ranges_total_len(rs.drop_last()) + rs.last().len()
    }
}

pub proof fn lemma_ranges_total_nonneg(rs: Seq<Seq<TTTRRecord>>)
    ensures
        ranges_total_len(rs) >= 0,
    decreases rs.len(),
{
    if rs.len() > 0 {
        lemma_ranges_total_nonneg(rs.drop_last());
    }
}

pub proof fn lemma_ranges_total_prefix(rs: Seq<Seq<TTTRRecord>>, i: int)
    requires
        0 <= i <= rs.len(),
    ensures
        0 <= ranges_total_len(rs.take(i)) <= ranges_total_len(rs),
    decreases rs.len() - i,
{
    lemma_ranges_total_nonneg(rs.take(i));
    if i == rs.len() {
        assert(rs.take(i) =~= rs);
    } else {
        lemma_ranges_total_prefix(rs, i + 1);
        assert(rs.take(i + 1).drop_last() =~= rs.take(i));
    }
}

/// The histogram after the first `k` ranges: each range runs the core loop
/// with fresh buffers on the histogram the previous ranges left behind.
pub open spec fn g2_ranges_hist(
    rs: Seq<Seq<TTTRRecord>>,
    k: int,
    p: G2Params,
    cap: nat,
    hist0: Seq<u64>,
) -> Seq<u64>
    decreases k,
{
    if k <= 0 {
        hist0
    } else {
        g2_fold(rs[k - 1], rs[k - 1].len() as int, p, cap, g2_ranges_hist(rs, k - 1, p, cap, hist0)).hist
    }
}

/// Accumulating `k` ranges keeps the histogram size and adds at most
/// `cap` counts per event to any bin.
pub proof fn lemma_g2_ranges_bounds(
    rs: Seq<Seq<TTTRRecord>>,
    k: int,
    p: G2Params,
    cap: nat,
    hist0: Seq<u64>,
)
    requires
        0 <= k <= rs.len(),
        cap >= 1,
    ensures
        g2_ranges_hist(rs, k, p, cap, hist0).len() == hist0.len(),
        forall|b: int|
            0 <= b < hist0.len() ==> g2_ranges_hist(rs, k, p, cap, hist0)[b] <= hist0[b] + cap
                * ranges_total_len(rs.take(k)),
    decreases k,
{
    vstd::arithmetic::mul::lemma_mul_basics(cap as int);
    if k > 0 {
        lemma_g2_ranges_bounds(rs, k - 1, p, cap, hist0);
        let prev = g2_ranges_hist(rs, k - 1, p, cap, hist0);
        lemma_g2_bounds(rs[k - 1], rs[k - 1].len() as int, p, cap, prev);
        assert(rs.take(k).drop_last() =~= rs.take(k - 1));
        assert(rs.take(k).last() == rs[k - 1]);
        vstd::arithmetic::mul::lemma_mul_is_distributive_add(
            cap as int,
            ranges_total_len(rs.take(k - 1)),
            rs[k - 1].len() as int,
        );
    }
}

/// Run the symmetric g2 engine: one histogram accumulated over several
/// record ranges, the click buffers freshly constructed for each range.
pub fn g2_symmetric_events(ranges: &Vec<Vec<TTTRRecord>>, params: &G2Params) -> (r: G2Result)
    requires
        forall|ri: int|
            0 <= ri < ranges@.len() ==> rel_sorted_2(
                (#[trigger] ranges@[ri])@,
                params.channel_1,
                params.channel_2,
            ),
        params.n_bins_side * params.resolution_ticks <= u64::MAX,
        2 * params.n_bins_side <= usize::MAX,
        4096 * ranges_total_len(ranges_deep(ranges@)) <= u64::MAX,
    ensures
        r.hist@ == g2_ranges_hist(
            ranges_deep(ranges@),
            ranges@.len() as int,
            *params,
            MAX_BUFFER_SIZE as nat,
            zero_hist((2 * params.n_bins_side) as nat),
        ),
        r.hist@.len() == 2 * params.n_bins_side,
{
    let ghost p = *params;
    let ghost rs = ranges_deep(ranges@);
    let ghost h0 = zero_hist((2 * params.n_bins_side) as nat);
    let nr = ranges.len();
    let mut hist = make_zero_hist((2 * params.n_bins_side) as usize);
    let mut ri: usize = 0;
    while ri < nr
        invariant
            nr == ranges@.len(),
            ri <= nr,
            p == *params,
            rs == ranges_deep(ranges@),
            h0 == zero_hist((2 * p.n_bins_side) as nat),
            forall|q: int|
                0 <= q < ranges@.len() ==> rel_sorted_2(
                    (#[trigger] ranges@[q])@,
                    p.channel_1,
                    p.channel_2,
                ),
            p.n_bins_side * p.resolution_ticks <= u64::MAX,
            4096 * ranges_total_len(rs) <= u64::MAX,
            hist@ == g2_ranges_hist(rs, ri as int, p, MAX_BUFFER_SIZE as nat, h0),
            hist@.len() == 2 * p.n_bins_side,
        decreases nr - ri,
    {
        proof {
            lemma_g2_ranges_bounds(rs, ri as int, p, MAX_BUFFER_SIZE as nat, h0);
            lemma_ranges_total_prefix(rs, ri + 1);
            assert(rs.take(ri + 1).drop_last() =~= rs.take(ri as int));
            assert(rs.take(ri + 1).last() == rs[ri as int]);
            assert(rs[ri as int] == ranges@[ri as int]@);
            vstd::arithmetic::mul::lemma_mul_is_distributive_add(
                4096,
                ranges_total_len(rs.take(ri as int)),
                rs[ri as int].len() as int,
            );
            vstd::arithmetic::mul::lemma_mul_inequality(
                ranges_total_len(rs.take(ri + 1)),
                ranges_total_len(rs),
                4096,
            );
            vstd::arithmetic::mul::lemma_mul_is_commutative(
                ranges_total_len(rs.take(ri + 1)),
                4096,
            );
            vstd::arithmetic::mul::lemma_mul_is_commutative(ranges_total_len(rs), 4096);
            assert(MAX_BUFFER_SIZE as nat == 4096);
            lemma_ranges_total_nonneg(rs.take(ri as int));
            assert forall|k: int|
                0 <= k < hist@.len() implies hist@[k] + 4096 * ranges@[ri as int]@.len()
                <= u64::MAX by {
                assert(h0[k] == 0);
                assert(hist@[k] <= 4096 * ranges_total_len(rs.take(ri as int)));
                assert(ranges_total_len(rs.take(ri + 1)) == ranges_total_len(rs.take(ri as int))
                    + rs[ri as int].len());
                assert(4096 * ranges_total_len(rs.take(ri + 1)) <= 4096 * ranges_total_len(rs));
            }
        }
        g2_compute(&ranges[ri], params, &mut hist);
        ri = ri + 1;
    }
    G2Result { hist }
}

/// The word ranges as plain sequences.
pub open spec fn words_deep(ranges: Seq<Vec<u32>>) -> Seq<Seq<u32>> {
    ranges.map_values(|v: Vec<u32>| v@)
}

/// The decoded events of each word range, from fresh decoder state per
/// range.
pub open spec fn decoded_ranges(rt: RecordType, wss: Seq<Seq<u32>>, sp: u64, dr: u64) -> Seq<
    Seq<TTTRRecord>,
> {
    wss.map_values(|ws: Seq<u32>| decoded_events(rt, ws, sp, dr))
}

/// Second-order coincidences over a file's record words. The symmetric
/// mode accumulates every given range into one histogram; the asymmetric
/// mode takes exactly one range.
pub fn g2(f: &File, params: &G2Params, mode: G2Mode, word_ranges: &Vec<Vec<u32>>) -> (r: Result<
    G2Result,
    Error,
>)
    requires
        record_type_of_code(file_ptu(*f).rec_type_code) is Some,
        file_record_type(file_ptu(*f)) != RecordType::NotImplemented,
        forall|ri: int|
            0 <= ri < word_ranges@.len() ==> stream_fits(
                file_record_type(file_ptu(*f)),
                (#[trigger] word_ranges@[ri])@,
                file_ptu(*f).sync_period_ps,
                file_ptu(*f).dtime_res_ps,
            ),
        forall|ri: int|
            0 <= ri < word_ranges@.len() ==> rel_sorted_2(
                decoded_events(
                    file_record_type(file_ptu(*f)),
                    (#[trigger] word_ranges@[ri])@,
                    file_ptu(*f).sync_period_ps,
                    file_ptu(*f).dtime_res_ps,
                ),
                params.channel_1,
                params.channel_2,
            ),
        params.n_bins_side * params.resolution_ticks <= u64::MAX,
        2 * params.n_bins_side <= usize::MAX,
        4096 * ranges_total_len(
            decoded_ranges(
                file_record_type(file_ptu(*f)),
                words_deep(word_ranges@),
                file_ptu(*f).sync_period_ps,
                file_ptu(*f).dtime_res_ps,
            ),
        ) <= u64::MAX,
        mode == G2Mode::Asymmetric ==> word_ranges@.len() == 1,
    ensures
        ({
            let ft = file_record_type(file_ptu(*f));
            let rs = decoded_ranges(
                ft,
                words_deep(word_ranges@),
                file_ptu(*f).sync_period_ps,
                file_ptu(*f).dtime_res_ps,
            );
            match mode {
                G2Mode::Symmetric => r matches Ok(g) && g.hist@ == g2_ranges_hist(
                    rs,
                    rs.len() as int,
                    *params,
                    MAX_BUFFER_SIZE as nat,
                    zero_hist((2 * params.n_bins_side) as nat),
                ) && g.hist@.len() == 2 * params.n_bins_side,
                G2Mode::Asymmetric => r matches Ok(g) && g.hist@ == g2_fold(
                    rs[0],
                    rs[0].len() as int,
                    *params,
                    MAX_BUFFER_SIZE as nat,
                    zero_hist((2 * params.n_bins_side) as nat),
                ).hist && g.hist@.len() == 2 * params.n_bins_side,
            }
        }),
{
    let File::PTU(x) = f;
    let rt = match x.record_type() {
        Ok(rt) => rt,
        Err(e) => {
            return Err(e);
        },
    };
    let ghost rs = decoded_ranges(
        rt,
        words_deep(word_ranges@),
        file_ptu(*f).sync_period_ps,
        file_ptu(*f).dtime_res_ps,
    );
    let nr = word_ranges.len();
    let mut event_ranges: Vec<Vec<TTTRRecord>> = Vec::new();
    let mut ri: usize = 0;
    while ri < nr
        invariant
            nr == word_ranges@.len(),
            ri <= nr,
            rt == file_record_type(file_ptu(*f)),
            rt != RecordType::NotImplemented,
            forall|q: int|
                0 <= q < word_ranges@.len() ==> stream_fits(
                    rt,
                    (#[trigger] word_ranges@[q])@,
                    file_ptu(*f).sync_period_ps,
                    file_ptu(*f).dtime_res_ps,
                ),
            event_ranges@.len() == ri,
            forall|q: int|
                0 <= q < ri ==> (#[trigger] event_ranges@[q])@ == decoded_events(
                    rt,
                    word_ranges@[q]@,
                    file_ptu(*f).sync_period_ps,
                    file_ptu(*f).dtime_res_ps,
                ),
            x == file_ptu(*f),
        decreases nr - ri,
    {
        let events = decode_stream(rt, &word_ranges[ri], x.sync_period_ps, x.dtime_res_ps);
        event_ranges.push(events);
        ri = ri + 1;
    }
    proof {
        assert forall|q: int| 0 <= q < nr implies ranges_deep(event_ranges@)[q] == rs[q] by {
            assert(event_ranges@[q]@ == decoded_events(
                rt,
                word_ranges@[q]@,
                file_ptu(*f).sync_period_ps,
                file_ptu(*f).dtime_res_ps,
            ));
            assert(words_deep(word_ranges@)[q] == word_ranges@[q]@);
        }
        assert(ranges_deep(event_ranges@) =~= rs);
        assert forall|q: int|
            0 <= q < event_ranges@.len() implies rel_sorted_2(
            (#[trigger] event_ranges@[q])@,
            params.channel_1,
            params.channel_2,
        ) by {
            assert(event_ranges@[q]@ == rs[q]);
        }
    }
    match mode {
        G2Mode::Symmetric => Ok(g2_symmetric_events(&event_ranges, params)),
        G2Mode::Asymmetric => {
            proof {
                assert(rs.len() == 1);
                assert(rs.drop_last().len() == 0);
                assert(ranges_total_len(rs.drop_last()) == 0);
                assert(rs.last() == rs[0]);
                assert(ranges_total_len(rs) == rs[0].len());
                assert(event_ranges@[0]@ == rs[0]);
            }
            Ok(g2_asymmetric_events(&event_ranges[0], params))
        },
    }
}

/// The histogram read back to front: bin `k` swaps with bin `len - 1 - k`.
pub open spec fn mirrored(h: Seq<u64>) -> Seq<u64> {
    Seq::new(h.len(), |i: int| h[h.len() - 1 - i])
}

/// The same parameters with the two channels exchanged.
pub open spec fn g2_swapped(p: G2Params) -> G2Params {
    G2Params {
        channel_1: p.channel_2,
        channel_2: p.channel_1,
        n_bins_side: p.n_bins_side,
        resolution_ticks: p.resolution_ticks,
    }
}

proof fn lemma_mirror_bump(h: Seq<u64>, idx: int)
    requires
        0 <= idx < h.len(),
    ensures
        mirrored(hist_bump(h, idx)) == hist_bump(mirrored(h), h.len() - 1 - idx),
{
    assert(mirrored(hist_bump(h, idx)) =~= hist_bump(mirrored(h), h.len() - 1 - idx));
}

/// A scan on one side of the histogram is the mirror image of the same
/// scan on the other side.
proof fn lemma_g2_scan_mirror(
    hist: Seq<u64>,
    buf: Seq<u64>,
    t: u64,
    nb: u64,
    res: u64,
    positive: bool,
)
    requires
        hist.len() == 2 * nb,
    ensures
        mirrored(g2_scan(hist, buf, t, nb, res, positive)) == g2_scan(
            mirrored(hist),
            buf,
            t,
            nb,
            res,
            !positive,
        ),
    decreases buf.len(),
{
    if buf.len() > 0 {
        let delta = t - buf.last();
        if 0 <= delta < nb * res {
            vstd::arithmetic::mul::lemma_mul_basics(nb as int);
            if res == 0 {
                assert(nb * res == 0);
            }
            vstd::arithmetic::mul::lemma_mul_is_commutative(nb as int, res as int);
            vstd::arithmetic::div_mod::lemma_multiply_divide_lt(delta, res as int, nb as int);
            vstd::arithmetic::div_mod::lemma_div_pos_is_pos(delta, res as int);
            let q = delta / (res as int);
            let idx = if positive {
                nb + q
            } else {
                nb - q - 1
            };
            lemma_mirror_bump(hist, idx);
            lemma_g2_scan_bounds(hist, buf, t, nb, res, positive);
            lemma_g2_scan_mirror(hist_bump(hist, idx), buf.drop_last(), t, nb, res, positive);
        }
    }
}

/// Running the fold with the channels exchanged swaps the two click
/// buffers and mirrors the histogram.
proof fn lemma_g2_fold_mirror(events: Seq<TTTRRecord>, n: int, p: G2Params, cap: nat, hist0: Seq<
    u64,
>)
    requires
        p.channel_1 != p.channel_2,
        hist0.len() == 2 * p.n_bins_side,
        0 <= n <= events.len(),
    ensures
        g2_fold(events, n, g2_swapped(p), cap, mirrored(hist0)).buf_1 == g2_fold(
            events,
            n,
            p,
            cap,
            hist0,
        ).buf_2,
        g2_fold(events, n, g2_swapped(p), cap, mirrored(hist0)).buf_2 == g2_fold(
            events,
            n,
            p,
            cap,
            hist0,
        ).buf_1,
        g2_fold(events, n, g2_swapped(p), cap, mirrored(hist0)).hist == mirrored(
            g2_fold(events, n, p, cap, hist0).hist,
        ),
    decreases n,
{
    if n > 0 {
        lemma_g2_fold_mirror(events, n - 1, p, cap, hist0);
        let st = g2_fold(events, n - 1, p, cap, hist0);
        let ev = events[n - 1];
        assert(st.hist.len() == 2 * p.n_bins_side) by {
            lemma_g2_bounds_len(events, n - 1, p, cap, hist0);
        }
        if ev.channel == p.channel_1 {
            lemma_g2_scan_mirror(st.hist, st.buf_2, ev.tof, p.n_bins_side, p.resolution_ticks,
                false);
        } else if ev.channel == p.channel_2 {
            lemma_g2_scan_mirror(st.hist, st.buf_1, ev.tof, p.n_bins_side, p.resolution_ticks,
                true);
        }
    }
}

/// The histogram size is preserved by the fold.
proof fn lemma_g2_bounds_len(events: Seq<TTTRRecord>, n: int, p: G2Params, cap: nat, hist0: Seq<
    u64,
>)
    requires
        0 <= n <= events.len(),
    ensures
        g2_fold(events, n, p, cap, hist0).hist.len() == hist0.len(),
    decreases n,
{
    if n > 0 {
        lemma_g2_bounds_len(events, n - 1, p, cap, hist0);
        let st = g2_fold(events, n - 1, p, cap, hist0);
        let ev = events[n - 1];
        if ev.channel == p.channel_1 {
            lemma_g2_scan_bounds(st.hist, st.buf_2, ev.tof, p.n_bins_side, p.resolution_ticks,
                false);
        } else if ev.channel == p.channel_2 {
            lemma_g2_scan_bounds(st.hist, st.buf_1, ev.tof, p.n_bins_side, p.resolution_ticks,
                true);
        }
    }
}

/// Symmetry law for a disjoint channel pair: exchanging the two channels
/// mirrors the histogram about the central bin, so the count a delay
/// registers at `central_bin + k` under one ordering stands at
/// `central_bin - 1 - k` under the other.
pub proof fn lemma_g2_channel_symmetry(events: Seq<TTTRRecord>, n: int, p: G2Params, cap: nat)
    requires
        p.channel_1 != p.channel_2,
        0 <= n <= events.len(),
    ensures
        forall|k: int|
            0 <= k < p.n_bins_side ==> #[trigger] g2_fold(
                events,
                n,
                g2_swapped(p),
                cap,
                zero_hist((2 * p.n_bins_side) as nat),
            ).hist[p.n_bins_side + k] == g2_fold(
                events,
                n,
                p,
                cap,
                zero_hist((2 * p.n_bins_side) as nat),
            ).hist[p.n_bins_side - 1 - k],
{
    let h0 = zero_hist((2 * p.n_bins_side) as nat);
    assert(mirrored(h0) =~= h0);
    lemma_g2_fold_mirror(events, n, p, cap, h0);
    lemma_g2_bounds_len(events, n, p, cap, h0);
}

/// With `channel_1 == channel_2` every matching event takes the channel-1
/// branch, so the second buffer stays empty and no delay is ever counted:
/// the histogram comes back exactly as seeded.
pub proof fn lemma_g2_equal_channels(
    events: Seq<TTTRRecord>,
    n: int,
    p: G2Params,
    cap: nat,
    hist0: Seq<u64>,
)
    requires
        p.channel_1 == p.channel_2,
        0 <= n <= events.len(),
    ensures
        g2_fold(events, n, p, cap, hist0).buf_2.len() == 0,
        g2_fold(events, n, p, cap, hist0).hist == hist0,
    decreases n,
{
    if n > 0 {
        lemma_g2_equal_channels(events, n - 1, p, cap, hist0);
    }
}

} // verus!
