//! Intensity time trace: discretise the acquisition into bins of a fixed
//! number of ticks and count the clicks falling in each. Alongside the
//! counts, the record number that closed each bin is kept, which makes
//! photon post-selection possible.
use crate::errors::Error;
use crate::headers::{file_ptu, File, RecordType};
use crate::ptu::{file_record_type, record_type_of_code};
use crate::streamers::{decode_stream, decoded_events, stream_fits};
use crate::TTTRRecord;
use vstd::prelude::*;

verus! {

/// Results for the timetrace algorithm.
pub struct TimeTraceResult {
    pub intensity: Vec<u64>,
    pub recnum_trace: Vec<u64>,
}

/// Parameters for the timetrace algorithm.
///
/// - `ticks_per_bin`: bin length in ticks of the stream's time resolution.
/// - `channel`: the channel to monitor; `None` sums every real detector
///   channel (and no sentinel).
pub struct TimeTraceParams {
    pub ticks_per_bin: u64,
    pub channel: Option<i32>,
}

/// Whether one event is counted under the channel selector: an exact match
/// when a channel is given, every non-negative channel otherwise.
pub open spec fn timetrace_counts(ev: TTTRRecord, channel: Option<i32>) -> bool {
    match channel {
        Some(c) => ev.channel == c,
        None => ev.channel >= 0,
    }
}

/// The running state of the trace: the open bin's count, the tick at which
/// it closes, and the bins emitted so far.
pub struct TimeTraceState {
    pub counter: int,
    pub end_of_bin: int,
    pub intensity: Seq<u64>,
    pub recnum: Seq<u64>,
}

/// One event: an event past the open bin's end first closes that bin
/// (without being counted into it), then the event is counted into the
/// fresh bin. A partial trailing bin is never emitted.
pub open spec fn timetrace_step(
    st: TimeTraceState,
    ev: TTTRRecord,
    idx: int,
    ticks_per_bin: u64,
    channel: Option<i32>,
) -> TimeTraceState {
    let closed = if ev.tof > st.end_of_bin {
        TimeTraceState {
            counter: 0,
            end_of_bin: st.end_of_bin + ticks_per_bin,
            intensity: st.intensity.push(st.counter as u64),
            recnum: st.recnum.push(idx as u64),
        }
    } else {
        st
    };
    if timetrace_counts(ev, channel) {
        TimeTraceState {
            counter: closed.counter + 1,
            end_of_bin: closed.end_of_bin,
            intensity: closed.intensity,
            recnum: closed.recnum,
        }
    } else {
        closed
    }
}

pub open spec fn timetrace_init(ticks_per_bin: u64) -> TimeTraceState {
    TimeTraceState {
        counter: 0,
        end_of_bin: ticks_per_bin as int,
        intensity: Seq::empty(),
        recnum: Seq::empty(),
    }
}

/// The state after the first `n` events of the stream.
pub open spec fn timetrace_fold(
    events: Seq<TTTRRecord>,
    n: int,
    ticks_per_bin: u64,
    channel: Option<i32>,
) -> TimeTraceState
    decreases n,
{
    if n <= 0 {
        timetrace_init(ticks_per_bin)
    } else {
        timetrace_step(
            timetrace_fold(events, n - 1, ticks_per_bin, channel),
            events[n - 1],
            n - 1,
            ticks_per_bin,
            channel,
        )
    }
}

/// Bins emitted plus the open bin never hold more counts than events seen,
/// and the bin end advances by exactly one bin length per emission.
pub proof fn lemma_timetrace_bounds(
    events: Seq<TTTRRecord>,
    n: int,
    ticks_per_bin: u64,
    channel: Option<i32>,
)
    requires
        0 <= n <= events.len(),
    ensures
        timetrace_fold(events, n, ticks_per_bin, channel).intensity.len() <= n,
        timetrace_fold(events, n, ticks_per_bin, channel).recnum.len() == timetrace_fold(
            events,
            n,
            ticks_per_bin,
            channel,
        ).intensity.len(),
        timetrace_fold(events, n, ticks_per_bin, channel).end_of_bin == ticks_per_bin * (1
            + timetrace_fold(events, n, ticks_per_bin, channel).intensity.len()),
        0 <= timetrace_fold(events, n, ticks_per_bin, channel).counter <= n,
    decreases n,
{
    vstd::arithmetic::mul::lemma_mul_basics(ticks_per_bin as int);
    if n > 0 {
        lemma_timetrace_bounds(events, n - 1, ticks_per_bin, channel);
        let st = timetrace_fold(events, n - 1, ticks_per_bin, channel);
        if events[n - 1].tof > st.end_of_bin {
            vstd::arithmetic::mul::lemma_mul_is_distributive_add(
                ticks_per_bin as int,
                1 + st.intensity.len() as int,
                1,
            );
            vstd::arithmetic::mul::lemma_mul_basics(ticks_per_bin as int);
        }
    }
}

/// Compute the intensity trace of a decoded stream.
pub fn timetrace_events(events: &Vec<TTTRRecord>, params: &TimeTraceParams) -> (r: TimeTraceResult)
    requires
        params.ticks_per_bin * (events@.len() + 1) <= u64::MAX,
    ensures
        r.intensity@ == timetrace_fold(
            events@,
            events@.len() as int,
            params.ticks_per_bin,
            params.channel,
        ).intensity,
        r.recnum_trace@ == timetrace_fold(
            events@,
            events@.len() as int,
            params.ticks_per_bin,
            params.channel,
        ).recnum,
{
    let ghost bpb = params.ticks_per_bin;
    let ghost filter = params.channel;
    let n = events.len();
    let mut trace: Vec<u64> = Vec::new();
    let mut recnum_trace: Vec<u64> = Vec::new();
    let mut counter: u64 = 0;
    let mut end_of_bin: u64 = params.ticks_per_bin;
    let mut i: usize = 0;
    while i < n
        invariant
            n == events@.len(),
            i <= n,
            bpb == params.ticks_per_bin,
            filter == params.channel,
            bpb * (n + 1) <= u64::MAX,
            counter == timetrace_fold(events@, i as int, bpb, filter).counter,
            end_of_bin == timetrace_fold(events@, i as int, bpb, filter).end_of_bin,
            trace@ == timetrace_fold(events@, i as int, bpb, filter).intensity,
            recnum_trace@ == timetrace_fold(events@, i as int, bpb, filter).recnum,
        decreases n - i,
    {
        proof {
            lemma_timetrace_bounds(events@, i as int, bpb, filter);
            vstd::arithmetic::mul::lemma_mul_inequality(
                trace@.len() as int + 2,
                n as int + 1,
                bpb as int,
            );
            vstd::arithmetic::mul::lemma_mul_is_distributive_add(
                bpb as int,
                1 + trace@.len() as int,
                1,
            );
            vstd::arithmetic::mul::lemma_mul_basics(bpb as int);
            vstd::arithmetic::mul::lemma_mul_is_commutative(bpb as int, n as int + 1);
            vstd::arithmetic::mul::lemma_mul_is_commutative(bpb as int, trace@.len() as int + 2);
        }
        let ev = events[i];
        if ev.tof > end_of_bin {
            trace.push(counter);
            recnum_trace.push(i as u64);
            counter = 0;
            end_of_bin = end_of_bin + params.ticks_per_bin;
        }
        let counted = match params.channel {
            Some(ch) => ev.channel == ch,
            None => ev.channel >= 0,
        };
        if counted {
            counter = counter + 1;
        }
        i = i + 1;
    }
    TimeTraceResult { intensity: trace, recnum_trace }
}

/// How many of the first `n` events the channel selector counts.
pub open spec fn count_counted(events: Seq<TTTRRecord>, n: int, channel: Option<i32>) -> int
    decreases n,
{
    if n <= 0 {
        0
    } else {
        count_counted(events, n - 1, channel) + if timetrace_counts(
            events[n - 1],
            channel,
        ) {
            1int
        } else {
            0int
        }
    }
}

pub open spec fn seq_sum(s: Seq<u64>) -> int
    decreases s.len(),
{
    if s.len() == 0 {
        0
    } else {
        seq_sum(s.drop_last()) + s.last()
    }
}

/// Conservation law: every counted event sits either in an emitted bin or
/// in the still-open counter, so with an empty channel selector the trace
/// sums all non-negative-channel events and no sentinels.
pub proof fn lemma_timetrace_conservation(
    events: Seq<TTTRRecord>,
    n: int,
    ticks_per_bin: u64,
    channel: Option<i32>,
)
    requires
        0 <= n <= events.len(),
        n <= u64::MAX,
    ensures
        seq_sum(timetrace_fold(events, n, ticks_per_bin, channel).intensity) + timetrace_fold(
            events,
            n,
            ticks_per_bin,
            channel,
        ).counter == count_counted(events, n, channel),
    decreases n,
{
    if n > 0 {
        lemma_timetrace_conservation(events, n - 1, ticks_per_bin, channel);
        let st = timetrace_fold(events, n - 1, ticks_per_bin, channel);
        if events[n - 1].tof > st.end_of_bin {
            assert(st.intensity.push(st.counter as u64).drop_last() =~= st.intensity);
            lemma_timetrace_bounds(events, n - 1, ticks_per_bin, channel);
        }
    }
}

/// Whether this engine has a stream for the given record format.
pub open spec fn timetrace_supported(rt: RecordType) -> bool {
    rt == RecordType::PHT2 || rt == RecordType::HHT2_HH1 || rt == RecordType::HHT2_HH2
}

/// Intensity trace over a file's record words: select the stream the
/// header declares, decode, and run the trace.
pub fn timetrace(f: &File, params: &TimeTraceParams, words: &Vec<u32>) -> (r: Result<
    TimeTraceResult,
    Error,
>)
    requires
        record_type_of_code(file_ptu(*f).rec_type_code) is Some,
        file_record_type(file_ptu(*f)) != RecordType::NotImplemented,
        stream_fits(
            file_record_type(file_ptu(*f)),
            words@,
            file_ptu(*f).sync_period_ps,
            file_ptu(*f).dtime_res_ps,
        ),
        timetrace_supported(file_record_type(file_ptu(*f))) ==> params.ticks_per_bin * (
        words@.len() + 1) <= u64::MAX,
    ensures
        ({
            let ft = file_record_type(file_ptu(*f));
            let evs = decoded_events(
                ft,
                words@,
                file_ptu(*f).sync_period_ps,
                file_ptu(*f).dtime_res_ps,
            );
            if timetrace_supported(ft) {
                r matches Ok(tt) && tt.intensity@ == timetrace_fold(
                    evs,
                    evs.len() as int,
                    params.ticks_per_bin,
                    params.channel,
                ).intensity && tt.recnum_trace@ == timetrace_fold(
                    evs,
                    evs.len() as int,
                    params.ticks_per_bin,
                    params.channel,
                ).recnum
            } else {
                r matches Err(e) && e matches Error::NotImplemented(_)
            }
        }),
{
    let File::PTU(x) = f;
    let rt = match x.record_type() {
        Ok(rt) => rt,
        Err(e) => {
            return Err(e);
        },
    };
    match rt {
        RecordType::PHT2 | RecordType::HHT2_HH1 | RecordType::HHT2_HH2 => {
            let events = decode_stream(rt, words, x.sync_period_ps, x.dtime_res_ps);
            Ok(timetrace_events(&events, params))
        },
        _ => Err(
            Error::NotImplemented(
                "The timetrace algorithm does not support this record format".to_owned(),
            ),
        ),
    }
}

} // verus!
