//! Zero-delay finder: a degenerate g2 where only the single most recent
//! click per channel is retained. The exponential-decay artefact it
//! produces peaks at the inter-channel electronic delay.
use crate::errors::Error;
use crate::headers::{file_ptu, File, RecordType};
use crate::ptu::{file_record_type, record_type_of_code};
use crate::streamers::{decode_stream, decoded_events, stream_fits};
use crate::{hist_bump, lemma_window_index, make_zero_hist, rel_sorted_2, zero_hist, TTTRRecord};
use vstd::prelude::*;

verus! {

/// Result from the zero finder algorithm.
pub struct ZeroFinderResult {
    pub hist: Vec<u64>,
}

/// Parameters for the zero finder algorithm, in ticks of the stream's time
/// resolution: `n_bins_side` bins on each side of zero delay, each
/// `resolution_ticks` wide.
pub struct ZeroFinderParams {
    pub channel_1: i32,
    pub channel_2: i32,
    pub n_bins_side: u64,
    pub resolution_ticks: u64,
}

pub struct ZeroFinderState {
    pub prev_1: u64,
    pub prev_2: u64,
    pub hist: Seq<u64>,
}

pub open spec fn zerofinder_init(nb: u64) -> ZeroFinderState {
    ZeroFinderState { prev_1: 0, prev_2: 0, hist: zero_hist((2 * nb) as nat) }
}

/// One event against the single retained click of the other channel. A
/// click on channel 1 lands below the central bin, one on channel 2 at or
/// above it; a delay at or past the correlation window is dropped.
pub open spec fn zerofinder_step(
    st: ZeroFinderState,
    ev: TTTRRecord,
    p: ZeroFinderParams,
) -> ZeroFinderState {
    let cw = p.n_bins_side * p.resolution_ticks;
    let res = p.resolution_ticks as int;
    if ev.channel == p.channel_1 {
        let delta = ev.tof - st.prev_2;
        let h = if 0 <= delta < cw {
            hist_bump(st.hist, p.n_bins_side - delta / res - 1)
        } else {
            st.hist
        };
        ZeroFinderState { prev_1: ev.tof, prev_2: st.prev_2, hist: h }
    } else if ev.channel == p.channel_2 {
        let delta = ev.tof - st.prev_1;
        let h = if 0 <= delta < cw {
            hist_bump(st.hist, p.n_bins_side + delta / res)
        } else {
            st.hist
        };
        ZeroFinderState { prev_1: st.prev_1, prev_2: ev.tof, hist: h }
    } else {
        st
    }
}

/// The state after the first `n` events of the stream.
pub open spec fn zerofinder_fold(
    events: Seq<TTTRRecord>,
    n: int,
    p: ZeroFinderParams,
) -> ZeroFinderState
    decreases n,
{
    if n <= 0 {
        zerofinder_init(p.n_bins_side)
    } else {
        zerofinder_step(zerofinder_fold(events, n - 1, p), events[n - 1], p)
    }
}

/// The histogram keeps its size and no counter exceeds the number of
/// events folded in.
pub proof fn lemma_zerofinder_bounds(events: Seq<TTTRRecord>, n: int, p: ZeroFinderParams)
    requires
        0 <= n <= events.len(),
    ensures
        zerofinder_fold(events, n, p).hist.len() == 2 * p.n_bins_side,
        forall|k: int|
            0 <= k < zerofinder_fold(events, n, p).hist.len() ==> zerofinder_fold(
                events,
                n,
                p,
            ).hist[k] <= n,
    decreases n,
{
    if n > 0 {
        lemma_zerofinder_bounds(events, n - 1, p);
    }
}

/// Compute the zero-delay histogram of a decoded stream.
pub fn zerofinder_events(events: &Vec<TTTRRecord>, params: &ZeroFinderParams) -> (r:
    ZeroFinderResult)
    requires
        rel_sorted_2(events@, params.channel_1, params.channel_2),
        params.n_bins_side * params.resolution_ticks <= u64::MAX,
        2 * params.n_bins_side <= usize::MAX,
    ensures
        r.hist@ == zerofinder_fold(events@, events@.len() as int, *params).hist,
        r.hist@.len() == 2 * params.n_bins_side,
{
    let ghost p = *params;
    let n = events.len();
    let n_bins = (2 * params.n_bins_side) as usize;
    let mut hist = make_zero_hist(n_bins);
    let correlation_window = params.n_bins_side * params.resolution_ticks;
    let mut prev_1: u64 = 0;
    let mut prev_2: u64 = 0;
    let mut i: usize = 0;
    while i < n
        invariant
            n == events@.len(),
            i <= n,
            p == *params,
            rel_sorted_2(events@, p.channel_1, p.channel_2),
            p.n_bins_side * p.resolution_ticks <= u64::MAX,
            2 * p.n_bins_side <= usize::MAX,
            correlation_window == p.n_bins_side * p.resolution_ticks,
            prev_1 == zerofinder_fold(events@, i as int, p).prev_1,
            prev_2 == zerofinder_fold(events@, i as int, p).prev_2,
            hist@ == zerofinder_fold(events@, i as int, p).hist,
            hist@.len() == 2 * p.n_bins_side,
            forall|k: int| 0 <= k < hist@.len() ==> hist@[k] <= i,
            forall|j: int|
                i <= j < n && ((#[trigger] events@[j]).channel == p.channel_1 || events@[j].channel
                    == p.channel_2) ==> prev_1 <= events@[j].tof && prev_2 <= events@[j].tof,
        decreases n - i,
    {
        proof {
            lemma_zerofinder_bounds(events@, i as int, p);
        }
        let ev = events[i];
        if ev.channel == params.channel_1 {
            prev_1 = ev.tof;
            let delta = ev.tof - prev_2;
            if delta < correlation_window {
                proof {
                    lemma_window_index(delta, params.n_bins_side, params.resolution_ticks);
                }
                let idx = (params.n_bins_side - delta / params.resolution_ticks - 1) as usize;
                let v = hist[idx];
                hist.set(idx, v + 1);
            }
        } else if ev.channel == params.channel_2 {
            prev_2 = ev.tof;
            let delta = ev.tof - prev_1;
            if delta < correlation_window {
                proof {
                    lemma_window_index(delta, params.n_bins_side, params.resolution_ticks);
                }
                let idx = (params.n_bins_side + delta / params.resolution_ticks) as usize;
                let v = hist[idx];
                hist.set(idx, v + 1);
            }
        }
        i = i + 1;
    }
    ZeroFinderResult { hist }
}

/// Zero-delay histogram over a file's record words: select the stream
/// the header declares, decode, and run the finder.
pub fn zerofinder(f: &File, params: &ZeroFinderParams, words: &Vec<u32>) -> (r: Result<
    ZeroFinderResult,
    Error,
>)
    requires
        record_type_of_code(file_ptu(*f).rec_type_code) is Some,
        file_record_type(file_ptu(*f)) != RecordType::NotImplemented,
        stream_fits(
            file_record_type(file_ptu(*f)),
            words@,
            file_ptu(*f).sync_period_ps,
            file_ptu(*f).dtime_res_ps,
        ),
        rel_sorted_2(
            decoded_events(
                file_record_type(file_ptu(*f)),
                words@,
                file_ptu(*f).sync_period_ps,
                file_ptu(*f).dtime_res_ps,
            ),
            params.channel_1,
            params.channel_2,
        ),
        params.n_bins_side * params.resolution_ticks <= u64::MAX,
        2 * params.n_bins_side <= usize::MAX,
    ensures
        ({
            let evs = decoded_events(
                file_record_type(file_ptu(*f)),
                words@,
                file_ptu(*f).sync_period_ps,
                file_ptu(*f).dtime_res_ps,
            );
            r matches Ok(z) && z.hist@ == zerofinder_fold(evs, evs.len() as int, *params).hist
                && z.hist@.len() == 2 * params.n_bins_side
        }),
{
    let File::PTU(x) = f;
    let rt = match x.record_type() {
        Ok(rt) => rt,
        Err(e) => {
            return Err(e);
        },
    };
    let events = decode_stream(rt, words, x.sync_period_ps, x.dtime_res_ps);
    Ok(zerofinder_events(&events, params))
}

} // verus!
