//! Lifetime histogram for pulsed excitation: the delay of each source
//! click behind the most recent sync click, folded into one sync period.
use crate::errors::Error;
use crate::headers::{file_ptu, File, RecordType};
use crate::ptu::{file_record_type, record_type_of_code};
use crate::streamers::{decode_stream, decoded_events, stream_fits};
use crate::{hist_bump, make_zero_hist, rel_sorted_2, zero_hist, TTTRRecord};
use vstd::prelude::*;

verus! {

/// Result from the lifetime algorithm.
pub struct LifetimeResult {
    pub hist: Vec<u64>,
}

/// Parameters for the lifetime algorithm: the histogram spans one sync
/// period with `n_bins` bins of `bin_ticks` picoseconds each.
pub struct LifetimeParams {
    pub channel_sync: i32,
    pub channel_source: i32,
    pub n_bins: u64,
    pub bin_ticks: u64,
}

pub struct LifetimeState {
    pub tof_sync: u64,
    pub hist: Seq<u64>,
}

pub open spec fn lifetime_init(nb: u64) -> LifetimeState {
    LifetimeState { tof_sync: 0, hist: zero_hist(nb as nat) }
}

/// One event: a sync click resets the reference time; a source click files
/// its delay, folded modulo the sync period, into its bin. Only indices
/// strictly below `n_bins` are counted.
pub open spec fn lifetime_step(
    st: LifetimeState,
    ev: TTTRRecord,
    p: LifetimeParams,
    sync_period: u64,
) -> LifetimeState {
    if ev.channel == p.channel_source {
        let delta = ev.tof - st.tof_sync;
        let idx = (delta % (sync_period as int)) / (p.bin_ticks as int);
        let h = if 0 <= delta && idx < p.n_bins {
            hist_bump(st.hist, idx)
        } else {
            st.hist
        };
        LifetimeState { tof_sync: st.tof_sync, hist: h }
    } else if ev.channel == p.channel_sync {
        LifetimeState { tof_sync: ev.tof, hist: st.hist }
    } else {
        st
    }
}

/// The state after the first `n` events of the stream.
pub open spec fn lifetime_fold(
    events: Seq<TTTRRecord>,
    n: int,
    p: LifetimeParams,
    sync_period: u64,
) -> LifetimeState
    decreases n,
{
    if n <= 0 {
        lifetime_init(p.n_bins)
    } else {
        lifetime_step(lifetime_fold(events, n - 1, p, sync_period), events[n - 1], p, sync_period)
    }
}

/// The histogram keeps exactly `n_bins` counters — counts land nowhere
/// else — and no counter exceeds the number of events folded in.
pub proof fn lemma_lifetime_bounds(
    events: Seq<TTTRRecord>,
    n: int,
    p: LifetimeParams,
    sync_period: u64,
)
    requires
        0 <= n <= events.len(),
    ensures
        lifetime_fold(events, n, p, sync_period).hist.len() == p.n_bins,
        forall|k: int|
            0 <= k < lifetime_fold(events, n, p, sync_period).hist.len() ==> lifetime_fold(
                events,
                n,
                p,
                sync_period,
            ).hist[k] <= n,
    decreases n,
{
    if n > 0 {
        lemma_lifetime_bounds(events, n - 1, p, sync_period);
    }
}

/// Every delay folded modulo the sync period scales to a bin index inside
/// the histogram whenever the bins cover the whole period; together with
/// the guard in `lifetime_step`, no count ever lands outside `n_bins`.
pub proof fn lemma_lifetime_index_in_range(
    delta: int,
    sync_period: u64,
    bin_ticks: u64,
    n_bins: u64,
)
    requires
        0 <= delta,
        sync_period >= 1,
        bin_ticks >= 1,
        sync_period <= n_bins * bin_ticks,
    ensures
        0 <= (delta % (sync_period as int)) / (bin_ticks as int) < n_bins,
{
    let m = delta % (sync_period as int);
    assert(0 <= m < sync_period);
    vstd::arithmetic::mul::lemma_mul_is_commutative(n_bins as int, bin_ticks as int);
    vstd::arithmetic::div_mod::lemma_multiply_divide_lt(m, bin_ticks as int, n_bins as int);
}

/// Compute the lifetime histogram of a decoded stream.
pub fn lifetime_events(
    events: &Vec<TTTRRecord>,
    params: &LifetimeParams,
    sync_period: u64,
) -> (r: LifetimeResult)
    requires
        rel_sorted_2(events@, params.channel_sync, params.channel_source),
        sync_period >= 1,
        params.bin_ticks >= 1,
        params.n_bins <= usize::MAX,
    ensures
        r.hist@ == lifetime_fold(events@, events@.len() as int, *params, sync_period).hist,
        r.hist@.len() == params.n_bins,
{
    let ghost p = *params;
    let n = events.len();
    let mut hist = make_zero_hist(params.n_bins as usize);
    let mut tof_sync: u64 = 0;
    let mut i: usize = 0;
    while i < n
        invariant
            n == events@.len(),
            i <= n,
            p == *params,
            rel_sorted_2(events@, p.channel_sync, p.channel_source),
            sync_period >= 1,
            p.bin_ticks >= 1,
            p.n_bins <= usize::MAX,
            tof_sync == lifetime_fold(events@, i as int, p, sync_period).tof_sync,
            hist@ == lifetime_fold(events@, i as int, p, sync_period).hist,
            hist@.len() == p.n_bins,
            forall|k: int| 0 <= k < hist@.len() ==> hist@[k] <= i,
            forall|j: int|
                i <= j < n && ((#[trigger] events@[j]).channel == p.channel_sync
                    || events@[j].channel == p.channel_source) ==> tof_sync <= events@[j].tof,
        decreases n - i,
    {
        proof {
            lemma_lifetime_bounds(events@, i as int, p, sync_period);
        }
        let ev = events[i];
        if ev.channel == params.channel_source {
            let delta = ev.tof - tof_sync;
            let idx = (delta % sync_period) / params.bin_ticks;
            if idx < params.n_bins {
                let v = hist[idx as usize];
                hist.set(idx as usize, v + 1);
            }
        } else if ev.channel == params.channel_sync {
            tof_sync = ev.tof;
        }
        i = i + 1;
    }
    LifetimeResult { hist }
}

/// Lifetime histogram over a file's record words. Only the T3 stream
/// carries the sync-relative times the algorithm needs; every other
/// format is refused.
pub fn lifetime(f: &File, params: &LifetimeParams, words: &Vec<u32>) -> (r: Result<
    LifetimeResult,
    Error,
>)
    requires
        record_type_of_code(file_ptu(*f).rec_type_code) is Some,
        file_record_type(file_ptu(*f)) != RecordType::NotImplemented,
        stream_fits(
            file_record_type(file_ptu(*f)),
            words@,
            file_ptu(*f).sync_period_ps,
            file_ptu(*f).dtime_res_ps,
        ),
        file_record_type(file_ptu(*f)) == RecordType::HHT3_HH2 ==> rel_sorted_2(
            decoded_events(
                RecordType::HHT3_HH2,
                words@,
                file_ptu(*f).sync_period_ps,
                file_ptu(*f).dtime_res_ps,
            ),
            params.channel_sync,
            params.channel_source,
        ) && file_ptu(*f).sync_period_ps >= 1 && params.bin_ticks >= 1 && params.n_bins
            <= usize::MAX,
    ensures
        ({
            let ft = file_record_type(file_ptu(*f));
            let evs = decoded_events(
                ft,
                words@,
                file_ptu(*f).sync_period_ps,
                file_ptu(*f).dtime_res_ps,
            );
            if ft == RecordType::HHT3_HH2 {
                r matches Ok(lt) && lt.hist@ == lifetime_fold(
                    evs,
                    evs.len() as int,
                    *params,
                    file_ptu(*f).sync_period_ps,
                ).hist && lt.hist@.len() == params.n_bins
            } else {
                r matches Err(e) && e matches Error::NotImplemented(_)
            }
        }),
{
    let File::PTU(x) = f;
    let rt = match x.record_type() {
        Ok(rt) => rt,
        Err(e) => {
            return Err(e);
        },
    };
    match rt {
        RecordType::HHT3_HH2 => {
            let events = decode_stream(rt, words, x.sync_period_ps, x.dtime_res_ps);
            Ok(lifetime_events(&events, params, x.sync_period_ps))
        },
        _ => Err(
            Error::NotImplemented(
                "The lifetime algorithm is only supported in T3 mode".to_owned(),
            ),
        ),
    }
}

} // verus!
