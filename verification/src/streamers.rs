//! Record decoders: per-format state machines that turn packed 32-bit
//! records into canonical events while correcting time-tag overflows.
//!
//! Each decoder owns its cross-record state (an overflow accumulator for the
//! T2 formats, a sync counter plus periods for the T3 format). `parse_record`
//! consumes one packed word; `decode` drains a whole slice of words in
//! one pass, the way the record body of a file is consumed.
use crate::TTTRRecord;
use vstd::prelude::*;

verus! {

pub const PHT2_WRAPAROUND: u64 = 210698240;

/// Channel field of a PicoHarp T2 record: bits 31..28.
pub open spec fn pht2_ch(w: u32) -> u32 {
    (w & 0xF0000000) >> 28
}

/// Time field of a PicoHarp T2 record: bits 27..0.
pub open spec fn pht2_tm(w: u32) -> u64 {
    (w & 0x0FFFFFFF) as u64
}

/// A special record whose low marker bits are zero: a time-tag overflow.
pub open spec fn pht2_is_overflow(w: u32) -> bool {
    pht2_ch(w) == 0xF && pht2_tm(w) & 0xF == 0
}

/// A special record carrying marker bits.
pub open spec fn pht2_is_marker(w: u32) -> bool {
    pht2_ch(w) == 0xF && pht2_tm(w) & 0xF != 0
}

/// Overflow accumulator after one record, as an unbounded integer.
pub open spec fn pht2_next_ov(ov: int, w: u32) -> int {
    if pht2_is_overflow(w) {
        ov + PHT2_WRAPAROUND
    } else {
        ov
    }
}

/// The event one PicoHarp T2 record decodes to, given the accumulator value
/// before the record.
pub open spec fn pht2_event(ov: int, w: u32) -> TTTRRecord {
    if pht2_is_overflow(w) {
        TTTRRecord { channel: -1i32, tof: 0 }
    } else if pht2_is_marker(w) {
        TTTRRecord { channel: -2i32, tof: (ov + pht2_tm(w)) as u64 }
    } else {
        TTTRRecord { channel: pht2_ch(w) as i32, tof: (ov + pht2_tm(w)) as u64 }
    }
}

/// Accumulator after a whole word sequence.
pub open spec fn pht2_ov_after(ws: Seq<u32>, ov0: int) -> int
    decreases ws.len(),
{
    if ws.len() == 0 {
        ov0
    } else {
        pht2_next_ov(pht2_ov_after(ws.drop_last(), ov0), ws.last())
    }
}

/// The events a whole word sequence decodes to.
pub open spec fn pht2_events(ws: Seq<u32>, ov0: int) -> Seq<TTTRRecord>
    decreases ws.len(),
{
    if ws.len() == 0 {
        Seq::empty()
    } else {
        pht2_events(ws.drop_last(), ov0).push(
            pht2_event(pht2_ov_after(ws.drop_last(), ov0), ws.last()),
        )
    }
}

/// PicoHarp T2 decoder state: the unwrapped time-tag overflow accumulator.
#[allow(non_camel_case_types)]
pub struct PHT2Stream {
    pub overflow_correction: u64,
}

impl PHT2Stream {
    pub fn new() -> (r: Self)
        ensures
            r.overflow_correction == 0,
    {
        PHT2Stream { overflow_correction: 0 }
    }

    /// Decode one packed record, advancing the overflow accumulator.
    pub fn parse_record(&mut self, record: u32) -> (r: TTTRRecord)
        requires
            pht2_next_ov(old(self).overflow_correction as int, record) + pht2_tm(record)
                <= u64::MAX,
        ensures
            final(self).overflow_correction == pht2_next_ov(
                old(self).overflow_correction as int,
                record,
            ),
            r == pht2_event(old(self).overflow_correction as int, record),
    {
        proof {
            assert(pht2_tm(record) <= 0x0FFFFFFF && pht2_ch(record) <= 0xF) by (bit_vector);
        }
        let ch = ((record & 0xF0000000) >> 28) as i32;
        let tm = (record & 0x0FFFFFFF) as u64;

        let tof: u64;
        let channel: i32;

        if ch == 0xF {
            let markers = tm & 0xF;
            if markers == 0 {
                // overflow record: unwrap the time tag
                tof = 0;
                channel = -1;
                self.overflow_correction = self.overflow_correction + PHT2_WRAPAROUND;
            } else {
                // marker; the low 4 bits of time carry the marker bits, an
                // error far below the marker resolution
                tof = self.overflow_correction + tm;
                channel = -2;
            }
        } else {
            tof = self.overflow_correction + tm;
            channel = ch;
        }
        TTTRRecord { channel, tof }
    }

    /// Decode a whole record range. Every word yields exactly one event.
    pub fn decode(&mut self, records: &Vec<u32>) -> (r: Vec<TTTRRecord>)
        requires
            pht2_ov_after(records@, old(self).overflow_correction as int) + 0x0FFFFFFF
                <= u64::MAX,
        ensures
            final(self).overflow_correction == pht2_ov_after(
                records@,
                old(self).overflow_correction as int,
            ),
            r@ == pht2_events(records@, old(self).overflow_correction as int),
            r@.len() == records@.len(),
    {
        let ghost ov0 = old(self).overflow_correction as int;
        let n = records.len();
        let mut r: Vec<TTTRRecord> = Vec::new();
        let mut i: usize = 0;
        while i < n
            invariant
                n == records@.len(),
                i <= n,
                r@.len() == i,
                pht2_ov_after(records@, ov0) + 0x0FFFFFFF <= u64::MAX,
                self.overflow_correction == pht2_ov_after(records@.take(i as int), ov0),
                r@ == pht2_events(records@.take(i as int), ov0),
            decreases n - i,
        {
            proof {
                lemma_pht2_ov_prefix(records@, ov0, i + 1);
                assert(records@.take(i + 1).drop_last() =~= records@.take(i as int));
                assert(records@.take(i + 1).last() == records@[i as int]);
                let w = records@[i as int];
                assert(pht2_tm(w) <= 0x0FFFFFFF) by (bit_vector);
                assert(pht2_next_ov(self.overflow_correction as int, w) == pht2_ov_after(
                    records@.take(i + 1),
                    ov0,
                ));
            }
            let ev = self.parse_record(records[i]);
            r.push(ev);
            i = i + 1;
        }
        proof {
            assert(records@.take(n as int) =~= records@);
        }
        r
    }
}

/// The accumulator only grows, so its value after any prefix is bounded by
/// its value after the whole sequence.
pub proof fn lemma_pht2_ov_prefix(ws: Seq<u32>, ov0: int, i: int)
    requires
        0 <= i <= ws.len(),
    ensures
        ov0 <= pht2_ov_after(ws.take(i), ov0) <= pht2_ov_after(ws, ov0),
    decreases ws.len() - i,
{
    lemma_pht2_ov_grows(ws.take(i), ov0);
    if i == ws.len() {
        assert(ws.take(i) =~= ws);
    } else {
        lemma_pht2_ov_prefix(ws, ov0, i + 1);
        assert(ws.take(i + 1).drop_last() =~= ws.take(i));
    }
}

/// `ov0` never exceeds the accumulator it seeds.
pub proof fn lemma_pht2_ov_grows(ws: Seq<u32>, ov0: int)
    ensures
        ov0 <= pht2_ov_after(ws, ov0),
    decreases ws.len(),
{
    if ws.len() > 0 {
        lemma_pht2_ov_grows(ws.drop_last(), ov0);
    }
}

/// A run of consecutive overflow records, with no other record between,
/// advances the accumulator by exactly one wraparound period per record.
pub proof fn lemma_pht2_overflow_run(ws: Seq<u32>, ov0: int, a: int, b: int)
    requires
        0 <= a <= b <= ws.len(),
        forall|k: int| a <= k < b ==> pht2_is_overflow(#[trigger] ws[k]),
    ensures
        pht2_ov_after(ws.take(b), ov0) == pht2_ov_after(ws.take(a), ov0) + (b - a)
            * PHT2_WRAPAROUND,
    decreases b - a,
{
    if a < b {
        lemma_pht2_overflow_run(ws, ov0, a, b - 1);
        assert(ws.take(b).drop_last() =~= ws.take(b - 1));
        assert(ws.take(b).last() == ws[b - 1]);
    }
}

/// The accumulator after a prefix never shrinks as the prefix grows.
pub proof fn lemma_pht2_ov_mono2(ws: Seq<u32>, ov0: int, i: int, j: int)
    requires
        0 <= i <= j <= ws.len(),
    ensures
        pht2_ov_after(ws.take(i), ov0) <= pht2_ov_after(ws.take(j), ov0),
    decreases j - i,
{
    if i < j {
        lemma_pht2_ov_mono2(ws, ov0, i, j - 1);
        assert(ws.take(j).drop_last() =~= ws.take(j - 1));
    }
}

/// A stream as the hardware emits it: every photon or marker record carries
/// a time tag below the wraparound period, and time tags do not run
/// backwards between records unless an overflow record stands between them.
pub open spec fn pht2_wellformed(ws: Seq<u32>) -> bool {
    &&& forall|k: int|
        0 <= k < ws.len() && !pht2_is_overflow(#[trigger] ws[k]) ==> pht2_tm(ws[k])
            < PHT2_WRAPAROUND
    &&& forall|k: int|
        0 <= k && k + 1 < ws.len() && !pht2_is_overflow(#[trigger] ws[k]) && !pht2_is_overflow(
            ws[k + 1],
        ) ==> pht2_tm(ws[k]) <= pht2_tm(ws[k + 1])
}

/// Unwrapped times of the non-overflow records of a well-formed stream are
/// non-decreasing, counted before truncation to 64 bits.
pub proof fn lemma_pht2_unwrapped_monotone(ws: Seq<u32>, ov0: int, i: int, j: int)
    requires
        pht2_wellformed(ws),
        0 <= i < j < ws.len(),
        !pht2_is_overflow(ws[i]),
        !pht2_is_overflow(ws[j]),
    ensures
        pht2_ov_after(ws.take(i), ov0) + pht2_tm(ws[i]) <= pht2_ov_after(ws.take(j), ov0)
            + pht2_tm(ws[j]),
    decreases j,
{
    assert(ws.take(j).drop_last() =~= ws.take(j - 1));
    assert(ws.take(j).last() == ws[j - 1]);
    if j == i + 1 {
        // adjacent records share the accumulator and have ordered time tags
    } else if !pht2_is_overflow(ws[j - 1]) {
        lemma_pht2_unwrapped_monotone(ws, ov0, i, j - 1);
    } else {
        // an overflow stands between: the wraparound it adds dominates any
        // time tag the earlier record can carry
        lemma_pht2_ov_mono2(ws, ov0, i, j - 1);
    }
}

/// Monotonicity law: within one decoded stream, the time of flight emitted
/// on real photon channels (channel >= 0) is non-decreasing.
pub proof fn lemma_pht2_photon_monotone(ws: Seq<u32>, ov0: u64, i: int, j: int)
    requires
        pht2_wellformed(ws),
        pht2_ov_after(ws, ov0 as int) + 0x0FFFFFFF <= u64::MAX,
        0 <= i < j < ws.len(),
        pht2_events(ws, ov0 as int)[i].channel >= 0,
        pht2_events(ws, ov0 as int)[j].channel >= 0,
    ensures
        pht2_events(ws, ov0 as int)[i].tof <= pht2_events(ws, ov0 as int)[j].tof,
{
    lemma_pht2_events_index(ws, ov0 as int, i);
    lemma_pht2_events_index(ws, ov0 as int, j);
    let wi = ws[i];
    let wj = ws[j];
    assert(pht2_tm(wi) <= 0x0FFFFFFF) by (bit_vector);
    assert(pht2_tm(wj) <= 0x0FFFFFFF) by (bit_vector);
    lemma_pht2_ov_prefix(ws, ov0 as int, i);
    lemma_pht2_ov_prefix(ws, ov0 as int, j);
    lemma_pht2_unwrapped_monotone(ws, ov0 as int, i, j);
}

/// `pht2_events` maps each word to the event decoded under the accumulator
/// the preceding prefix left behind.
pub proof fn lemma_pht2_events_index(ws: Seq<u32>, ov0: int, i: int)
    requires
        0 <= i < ws.len(),
    ensures
        pht2_events(ws, ov0).len() == ws.len(),
        pht2_events(ws, ov0)[i] == pht2_event(pht2_ov_after(ws.take(i), ov0), ws[i]),
    decreases ws.len(),
{
    lemma_pht2_events_len(ws, ov0);
    if i == ws.len() - 1 {
        assert(ws.take(i) =~= ws.drop_last());
    } else {
        lemma_pht2_events_index(ws.drop_last(), ov0, i);
        assert(ws.drop_last().take(i) =~= ws.take(i));
    }
}

pub proof fn lemma_pht2_events_len(ws: Seq<u32>, ov0: int)
    ensures
        pht2_events(ws, ov0).len() == ws.len(),
    decreases ws.len(),
{
    if ws.len() > 0 {
        lemma_pht2_events_len(ws.drop_last(), ov0);
    }
}

pub const HHT2_HH1_WRAPAROUND: u64 = 33552000;

pub const HHT2_HH2_WRAPAROUND: u64 = 33554432;

/// Special flag of a HydraHarp record: bit 31.
pub open spec fn hht2_sp(w: u32) -> bool {
    (w & 0x80000000) >> 31 == 1
}

/// Channel field of a HydraHarp record: bits 30..25.
pub open spec fn hht2_ch(w: u32) -> u32 {
    (w & 0x7E000000) >> 25
}

/// Time field of a HydraHarp T2 record: bits 24..0.
pub open spec fn hht2_tm(w: u32) -> u64 {
    (w & 0x01FFFFFF) as u64
}

/// The canonical channel of a HydraHarp T2 record: photons map to `ch + 1`,
/// specials to `-ch`, so record category rides on the sign.
pub open spec fn hht2_channel(w: u32) -> i32 {
    if hht2_sp(w) {
        (0 - hht2_ch(w)) as i32
    } else {
        (hht2_ch(w) + 1) as i32
    }
}

/// HydraHarp V1 T2 overflow rule: each special record on channel 0x3F
/// advances the accumulator by one fixed wraparound period.
pub open spec fn hht2_hh1_next_ov(ov: int, w: u32) -> int {
    if hht2_sp(w) && hht2_ch(w) == 0x3F {
        ov + HHT2_HH1_WRAPAROUND
    } else {
        ov
    }
}

pub open spec fn hht2_hh1_event(ov: int, w: u32) -> TTTRRecord {
    TTTRRecord {
        channel: hht2_channel(w),
        tof: (hht2_hh1_next_ov(ov, w) + hht2_tm(w)) as u64,
    }
}

pub open spec fn hht2_hh1_ov_after(ws: Seq<u32>, ov0: int) -> int
    decreases ws.len(),
{
    if ws.len() == 0 {
        ov0
    } else {
        hht2_hh1_next_ov(hht2_hh1_ov_after(ws.drop_last(), ov0), ws.last())
    }
}

pub open spec fn hht2_hh1_events(ws: Seq<u32>, ov0: int) -> Seq<TTTRRecord>
    decreases ws.len(),
{
    if ws.len() == 0 {
        Seq::empty()
    } else {
        hht2_hh1_events(ws.drop_last(), ov0).push(
            hht2_hh1_event(hht2_hh1_ov_after(ws.drop_last(), ov0), ws.last()),
        )
    }
}

/// HydraHarp V1 T2 decoder state.
#[allow(non_camel_case_types)]
pub struct HHT2_HH1Stream {
    pub overflow_correction: u64,
}

impl HHT2_HH1Stream {
    pub fn new() -> (r: Self)
        ensures
            r.overflow_correction == 0,
    {
        HHT2_HH1Stream { overflow_correction: 0 }
    }

    /// Decode one packed record, advancing the overflow accumulator.
    pub fn parse_record(&mut self, record: u32) -> (r: TTTRRecord)
        requires
            hht2_hh1_next_ov(old(self).overflow_correction as int, record) + hht2_tm(record)
                <= u64::MAX,
        ensures
            final(self).overflow_correction == hht2_hh1_next_ov(
                old(self).overflow_correction as int,
                record,
            ),
            r == hht2_hh1_event(old(self).overflow_correction as int, record),
    {
        proof {
            assert(hht2_tm(record) <= 0x01FFFFFF && hht2_ch(record) <= 0x3F) by (bit_vector);
        }
        let special = (record & 0x80000000) >> 31 == 1;
        let ch = (record & 0x7E000000) >> 25;
        let tm = (record & 0x01FFFFFF) as u64;

        if special && ch == 0x3F {
            self.overflow_correction = self.overflow_correction + HHT2_HH1_WRAPAROUND;
        }
        let channel: i32 = if special {
            0 - (ch as i32)
        } else {
            ch as i32 + 1
        };
        let tof = self.overflow_correction + tm;
        TTTRRecord { channel, tof }
    }

    /// Decode a whole record range. Every word yields exactly one event.
    pub fn decode(&mut self, records: &Vec<u32>) -> (r: Vec<TTTRRecord>)
        requires
            hht2_hh1_ov_after(records@, old(self).overflow_correction as int) + 0x01FFFFFF
                <= u64::MAX,
        ensures
            final(self).overflow_correction == hht2_hh1_ov_after(
                records@,
                old(self).overflow_correction as int,
            ),
            r@ == hht2_hh1_events(records@, old(self).overflow_correction as int),
            r@.len() == records@.len(),
    {
        let ghost ov0 = old(self).overflow_correction as int;
        let n = records.len();
        let mut r: Vec<TTTRRecord> = Vec::new();
        let mut i: usize = 0;
        while i < n
            invariant
                n == records@.len(),
                i <= n,
                r@.len() == i,
                hht2_hh1_ov_after(records@, ov0) + 0x01FFFFFF <= u64::MAX,
                self.overflow_correction == hht2_hh1_ov_after(records@.take(i as int), ov0),
                r@ == hht2_hh1_events(records@.take(i as int), ov0),
            decreases n - i,
        {
            proof {
                lemma_hht2_hh1_ov_prefix(records@, ov0, i + 1);
                assert(records@.take(i + 1).drop_last() =~= records@.take(i as int));
                assert(records@.take(i + 1).last() == records@[i as int]);
                let w = records@[i as int];
                assert(hht2_tm(w) <= 0x01FFFFFF) by (bit_vector);
                assert(hht2_hh1_next_ov(self.overflow_correction as int, w) == hht2_hh1_ov_after(
                    records@.take(i + 1),
                    ov0,
                ));
            }
            let ev = self.parse_record(records[i]);
            r.push(ev);
            i = i + 1;
        }
        proof {
            assert(records@.take(n as int) =~= records@);
        }
        r
    }
}

pub proof fn lemma_hht2_hh1_ov_prefix(ws: Seq<u32>, ov0: int, i: int)
    requires
        0 <= i <= ws.len(),
    ensures
        ov0 <= hht2_hh1_ov_after(ws.take(i), ov0) <= hht2_hh1_ov_after(ws, ov0),
    decreases ws.len() - i,
{
    lemma_hht2_hh1_ov_grows(ws.take(i), ov0);
    if i == ws.len() {
        assert(ws.take(i) =~= ws);
    } else {
        lemma_hht2_hh1_ov_prefix(ws, ov0, i + 1);
        assert(ws.take(i + 1).drop_last() =~= ws.take(i));
    }
}

pub proof fn lemma_hht2_hh1_ov_grows(ws: Seq<u32>, ov0: int)
    ensures
        ov0 <= hht2_hh1_ov_after(ws, ov0),
    decreases ws.len(),
{
    if ws.len() > 0 {
        lemma_hht2_hh1_ov_grows(ws.drop_last(), ov0);
    }
}

/// HydraHarp V2 T2 overflow rule: the time field of an overflow record
/// counts how many wraparound periods elapsed at once; `tm == 0` advances
/// the accumulator by nothing.
pub open spec fn hht2_hh2_next_ov(ov: int, w: u32) -> int {
    if hht2_sp(w) && hht2_ch(w) == 0x3F {
        ov + HHT2_HH2_WRAPAROUND * hht2_tm(w)
    } else {
        ov
    }
}

pub open spec fn hht2_hh2_event(ov: int, w: u32) -> TTTRRecord {
    TTTRRecord {
        channel: hht2_channel(w),
        tof: (hht2_hh2_next_ov(ov, w) + hht2_tm(w)) as u64,
    }
}

pub open spec fn hht2_hh2_ov_after(ws: Seq<u32>, ov0: int) -> int
    decreases ws.len(),
{
    if ws.len() == 0 {
        ov0
    } else {
        hht2_hh2_next_ov(hht2_hh2_ov_after(ws.drop_last(), ov0), ws.last())
    }
}

pub open spec fn hht2_hh2_events(ws: Seq<u32>, ov0: int) -> Seq<TTTRRecord>
    decreases ws.len(),
{
    if ws.len() == 0 {
        Seq::empty()
    } else {
        hht2_hh2_events(ws.drop_last(), ov0).push(
            hht2_hh2_event(hht2_hh2_ov_after(ws.drop_last(), ov0), ws.last()),
        )
    }
}

/// HydraHarp V2 T2 decoder state.
#[allow(non_camel_case_types)]
pub struct HHT2_HH2Stream {
    pub overflow_correction: u64,
}

impl HHT2_HH2Stream {
    pub fn new() -> (r: Self)
        ensures
            r.overflow_correction == 0,
    {
        HHT2_HH2Stream { overflow_correction: 0 }
    }

    /// Decode one packed record, advancing the overflow accumulator.
    pub fn parse_record(&mut self, record: u32) -> (r: TTTRRecord)
        requires
            hht2_hh2_next_ov(old(self).overflow_correction as int, record) + hht2_tm(record)
                <= u64::MAX,
        ensures
            final(self).overflow_correction == hht2_hh2_next_ov(
                old(self).overflow_correction as int,
                record,
            ),
            r == hht2_hh2_event(old(self).overflow_correction as int, record),
    {
        proof {
            assert(hht2_tm(record) <= 0x01FFFFFF && hht2_ch(record) <= 0x3F) by (bit_vector);
        }
        let special = (record & 0x80000000) >> 31 == 1;
        let ch = (record & 0x7E000000) >> 25;
        let tm = (record & 0x01FFFFFF) as u64;

        if special && ch == 0x3F {
            self.overflow_correction = self.overflow_correction + HHT2_HH2_WRAPAROUND * tm;
        }
        let channel: i32 = if special {
            0 - (ch as i32)
        } else {
            ch as i32 + 1
        };
        let tof = self.overflow_correction + tm;
        TTTRRecord { channel, tof }
    }

    /// Decode a whole record range. Every word yields exactly one event.
    pub fn decode(&mut self, records: &Vec<u32>) -> (r: Vec<TTTRRecord>)
        requires
            hht2_hh2_ov_after(records@, old(self).overflow_correction as int) + 0x01FFFFFF
                <= u64::MAX,
        ensures
            final(self).overflow_correction == hht2_hh2_ov_after(
                records@,
                old(self).overflow_correction as int,
            ),
            r@ == hht2_hh2_events(records@, old(self).overflow_correction as int),
            r@.len() == records@.len(),
    {
        let ghost ov0 = old(self).overflow_correction as int;
        let n = records.len();
        let mut r: Vec<TTTRRecord> = Vec::new();
        let mut i: usize = 0;
        while i < n
            invariant
                n == records@.len(),
                i <= n,
                r@.len() == i,
                hht2_hh2_ov_after(records@, ov0) + 0x01FFFFFF <= u64::MAX,
                self.overflow_correction == hht2_hh2_ov_after(records@.take(i as int), ov0),
                r@ == hht2_hh2_events(records@.take(i as int), ov0),
            decreases n - i,
        {
            proof {
                lemma_hht2_hh2_ov_prefix(records@, ov0, i + 1);
                assert(records@.take(i + 1).drop_last() =~= records@.take(i as int));
                assert(records@.take(i + 1).last() == records@[i as int]);
                let w = records@[i as int];
                assert(hht2_tm(w) <= 0x01FFFFFF) by (bit_vector);
                assert(hht2_hh2_next_ov(self.overflow_correction as int, w) == hht2_hh2_ov_after(
                    records@.take(i + 1),
                    ov0,
                ));
            }
            let ev = self.parse_record(records[i]);
            r.push(ev);
            i = i + 1;
        }
        proof {
            assert(records@.take(n as int) =~= records@);
        }
        r
    }
}

pub proof fn lemma_hht2_hh2_ov_prefix(ws: Seq<u32>, ov0: int, i: int)
    requires
        0 <= i <= ws.len(),
    ensures
        ov0 <= hht2_hh2_ov_after(ws.take(i), ov0) <= hht2_hh2_ov_after(ws, ov0),
    decreases ws.len() - i,
{
    lemma_hht2_hh2_ov_grows(ws.take(i), ov0);
    if i == ws.len() {
        assert(ws.take(i) =~= ws);
    } else {
        lemma_hht2_hh2_ov_prefix(ws, ov0, i + 1);
        assert(ws.take(i + 1).drop_last() =~= ws.take(i));
    }
}

pub proof fn lemma_hht2_hh2_ov_grows(ws: Seq<u32>, ov0: int)
    ensures
        ov0 <= hht2_hh2_ov_after(ws, ov0),
    decreases ws.len(),
{
    if ws.len() > 0 {
        lemma_hht2_hh2_ov_grows(ws.drop_last(), ov0);
        let w = ws.last();
        assert(hht2_tm(w) >= 0) by (bit_vector);
    }
}

/// A record that advances the V1 accumulator: a special on channel 0x3F.
pub open spec fn hht2_hh1_is_advance(w: u32) -> bool {
    hht2_sp(w) && hht2_ch(w) == 0x3F
}

/// A HydraHarp V1 stream as the hardware emits it: every non-overflow
/// record carries a time tag below the wraparound period, and time tags do
/// not run backwards between records unless an overflow stands between.
pub open spec fn hht2_hh1_wellformed(ws: Seq<u32>) -> bool {
    &&& forall|k: int|
        0 <= k < ws.len() && !hht2_hh1_is_advance(#[trigger] ws[k]) ==> hht2_tm(ws[k])
            < HHT2_HH1_WRAPAROUND
    &&& forall|k: int|
        0 <= k && k + 1 < ws.len() && !hht2_hh1_is_advance(#[trigger] ws[k])
            && !hht2_hh1_is_advance(ws[k + 1]) ==> hht2_tm(ws[k]) <= hht2_tm(ws[k + 1])
}

pub proof fn lemma_hht2_hh1_ov_mono2(ws: Seq<u32>, ov0: int, i: int, j: int)
    requires
        0 <= i <= j <= ws.len(),
    ensures
        hht2_hh1_ov_after(ws.take(i), ov0) <= hht2_hh1_ov_after(ws.take(j), ov0),
    decreases j - i,
{
    if i < j {
        lemma_hht2_hh1_ov_mono2(ws, ov0, i, j - 1);
        assert(ws.take(j).drop_last() =~= ws.take(j - 1));
    }
}

/// Monotonicity law for the V1 stream: unwrapped times of non-overflow
/// records are non-decreasing.
pub proof fn lemma_hht2_hh1_unwrapped_monotone(ws: Seq<u32>, ov0: int, i: int, j: int)
    requires
        hht2_hh1_wellformed(ws),
        0 <= i < j < ws.len(),
        !hht2_hh1_is_advance(ws[i]),
        !hht2_hh1_is_advance(ws[j]),
    ensures
        hht2_hh1_ov_after(ws.take(i), ov0) + hht2_tm(ws[i]) <= hht2_hh1_ov_after(ws.take(j), ov0)
            + hht2_tm(ws[j]),
    decreases j,
{
    assert(ws.take(j).drop_last() =~= ws.take(j - 1));
    assert(ws.take(j).last() == ws[j - 1]);
    if j == i + 1 {
        // adjacent records share the accumulator and have ordered time tags
    } else if !hht2_hh1_is_advance(ws[j - 1]) {
        lemma_hht2_hh1_unwrapped_monotone(ws, ov0, i, j - 1);
    } else {
        // an overflow stands between: the wraparound it adds dominates any
        // time tag the earlier record can carry
        lemma_hht2_hh1_ov_mono2(ws, ov0, i, j - 1);
    }
}

pub proof fn lemma_hht2_hh1_events_len(ws: Seq<u32>, ov0: int)
    ensures
        hht2_hh1_events(ws, ov0).len() == ws.len(),
    decreases ws.len(),
{
    if ws.len() > 0 {
        lemma_hht2_hh1_events_len(ws.drop_last(), ov0);
    }
}

pub proof fn lemma_hht2_hh1_events_index(ws: Seq<u32>, ov0: int, i: int)
    requires
        0 <= i < ws.len(),
    ensures
        hht2_hh1_events(ws, ov0).len() == ws.len(),
        hht2_hh1_events(ws, ov0)[i] == hht2_hh1_event(hht2_hh1_ov_after(ws.take(i), ov0), ws[i]),
    decreases ws.len(),
{
    lemma_hht2_hh1_events_len(ws, ov0);
    if i == ws.len() - 1 {
        assert(ws.take(i) =~= ws.drop_last());
    } else {
        lemma_hht2_hh1_events_index(ws.drop_last(), ov0, i);
        assert(ws.drop_last().take(i) =~= ws.take(i));
    }
}

/// Monotonicity law: within one decoded V1 stream, the time of flight
/// emitted on real photon channels (channel >= 0) is non-decreasing.
pub proof fn lemma_hht2_hh1_photon_monotone(ws: Seq<u32>, ov0: u64, i: int, j: int)
    requires
        hht2_hh1_wellformed(ws),
        hht2_hh1_ov_after(ws, ov0 as int) + 0x01FFFFFF <= u64::MAX,
        0 <= i < j < ws.len(),
        hht2_hh1_events(ws, ov0 as int)[i].channel >= 0,
        hht2_hh1_events(ws, ov0 as int)[j].channel >= 0,
    ensures
        hht2_hh1_events(ws, ov0 as int)[i].tof <= hht2_hh1_events(ws, ov0 as int)[j].tof,
{
    lemma_hht2_hh1_events_index(ws, ov0 as int, i);
    lemma_hht2_hh1_events_index(ws, ov0 as int, j);
    let wi = ws[i];
    let wj = ws[j];
    assert(hht2_tm(wi) <= 0x01FFFFFF && hht2_ch(wi) <= 0x3F) by (bit_vector);
    assert(hht2_tm(wj) <= 0x01FFFFFF && hht2_ch(wj) <= 0x3F) by (bit_vector);
    lemma_hht2_hh1_ov_prefix(ws, ov0 as int, i);
    lemma_hht2_hh1_ov_prefix(ws, ov0 as int, j);
    lemma_hht2_hh1_unwrapped_monotone(ws, ov0 as int, i, j);
}

/// A record that advances the V2 accumulator: an overflow record whose
/// elapsed-period count is non-zero.
pub open spec fn hht2_hh2_is_advance(w: u32) -> bool {
    hht2_sp(w) && hht2_ch(w) == 0x3F && hht2_tm(w) > 0
}

/// A HydraHarp V2 stream as the hardware emits it: time tags do not run
/// backwards between records unless an advancing overflow stands between.
/// (Every 25-bit time tag already lies below the V2 wraparound period.)
pub open spec fn hht2_hh2_wellformed(ws: Seq<u32>) -> bool {
    forall|k: int|
        0 <= k && k + 1 < ws.len() && !hht2_hh2_is_advance(#[trigger] ws[k])
            && !hht2_hh2_is_advance(ws[k + 1]) ==> hht2_tm(ws[k]) <= hht2_tm(ws[k + 1])
}

pub proof fn lemma_hht2_hh2_ov_mono2(ws: Seq<u32>, ov0: int, i: int, j: int)
    requires
        0 <= i <= j <= ws.len(),
    ensures
        hht2_hh2_ov_after(ws.take(i), ov0) <= hht2_hh2_ov_after(ws.take(j), ov0),
    decreases j - i,
{
    if i < j {
        lemma_hht2_hh2_ov_mono2(ws, ov0, i, j - 1);
        assert(ws.take(j).drop_last() =~= ws.take(j - 1));
        let w = ws[j - 1];
        assert(hht2_tm(w) >= 0) by (bit_vector);
    }
}

/// Monotonicity law for the V2 stream: unwrapped times of records that do
/// not advance the accumulator are non-decreasing.
pub proof fn lemma_hht2_hh2_unwrapped_monotone(ws: Seq<u32>, ov0: int, i: int, j: int)
    requires
        hht2_hh2_wellformed(ws),
        0 <= i < j < ws.len(),
        !hht2_hh2_is_advance(ws[i]),
        !hht2_hh2_is_advance(ws[j]),
    ensures
        hht2_hh2_ov_after(ws.take(i), ov0) + hht2_tm(ws[i]) <= hht2_hh2_ov_after(ws.take(j), ov0)
            + hht2_tm(ws[j]),
    decreases j,
{
    assert(ws.take(j).drop_last() =~= ws.take(j - 1));
    assert(ws.take(j).last() == ws[j - 1]);
    if j == i + 1 {
        // adjacent records share the accumulator and have ordered time tags
    } else if !hht2_hh2_is_advance(ws[j - 1]) {
        lemma_hht2_hh2_unwrapped_monotone(ws, ov0, i, j - 1);
    } else {
        // an advancing overflow stands between: it adds at least one full
        // wraparound period, which dominates any 25-bit time tag
        lemma_hht2_hh2_ov_mono2(ws, ov0, i, j - 1);
        let wi = ws[i];
        let wadv = ws[j - 1];
        assert(hht2_tm(wi) < 0x2000000) by (bit_vector);
        assert(hht2_tm(wadv) >= 1 ==> HHT2_HH2_WRAPAROUND * hht2_tm(wadv)
            >= HHT2_HH2_WRAPAROUND);
    }
}

pub const T3_WRAPAROUND: u64 = 1024;

/// Dtime field of a HydraHarp T3 record: bits 24..10.
pub open spec fn hht3_dtime(w: u32) -> u64 {
    ((w & 0x01FFFC00) >> 10) as u64
}

/// Sync-counter field of a HydraHarp T3 record: bits 9..0.
pub open spec fn hht3_nsync_field(w: u32) -> u64 {
    (w & 0x000003FF) as u64
}

/// Sync accumulator after one record: an overflow record advances it by one
/// wraparound period when its sync field is zero (old single-overflow style),
/// else by that many periods at once.
pub open spec fn hht3_next_nsync(ns: int, w: u32) -> int {
    if hht2_sp(w) && hht2_ch(w) == 0x3F {
        if hht3_nsync_field(w) == 0 {
            ns + T3_WRAPAROUND
        } else {
            ns + T3_WRAPAROUND * hht3_nsync_field(w)
        }
    } else {
        ns
    }
}

/// The event one HydraHarp V2 T3 record decodes to. Times are picoseconds:
/// the sync counter scales by the sync period, the dtime by its resolution.
pub open spec fn hht3_event(ns: int, w: u32, sync_period: u64, dtime_res: u64) -> TTTRRecord {
    if hht2_sp(w) {
        if hht2_ch(w) == 0x3F {
            TTTRRecord { channel: 0i32, tof: (hht3_next_nsync(ns, w) * sync_period) as u64 }
        } else if 1 <= hht2_ch(w) && hht2_ch(w) <= 15 {
            TTTRRecord { channel: -1i32, tof: (ns * sync_period) as u64 }
        } else {
            TTTRRecord { channel: -1i32, tof: 0 }
        }
    } else {
        TTTRRecord {
            channel: (hht2_ch(w) + 1) as i32,
            tof: ((ns + hht3_nsync_field(w)) * sync_period + hht3_dtime(w) * dtime_res) as u64,
        }
    }
}

pub open spec fn hht3_ns_after(ws: Seq<u32>, ns0: int) -> int
    decreases ws.len(),
{
    if ws.len() == 0 {
        ns0
    } else {
        hht3_next_nsync(hht3_ns_after(ws.drop_last(), ns0), ws.last())
    }
}

pub open spec fn hht3_events(ws: Seq<u32>, ns0: int, sync_period: u64, dtime_res: u64) -> Seq<
    TTTRRecord,
>
    decreases ws.len(),
{
    if ws.len() == 0 {
        Seq::empty()
    } else {
        hht3_events(ws.drop_last(), ns0, sync_period, dtime_res).push(
            hht3_event(hht3_ns_after(ws.drop_last(), ns0), ws.last(), sync_period, dtime_res),
        )
    }
}

/// HydraHarp V2 T3 decoder state: the accumulated sync counter plus the
/// sync period and dtime resolution, both in picoseconds.
#[allow(non_camel_case_types)]
pub struct HHT3_HH2Stream {
    pub nsync: u64,
    pub sync_period: u64,
    pub dtime_res: u64,
}

impl HHT3_HH2Stream {
    pub fn new(sync_period: u64, dtime_res: u64) -> (r: Self)
        ensures
            r.nsync == 0,
            r.sync_period == sync_period,
            r.dtime_res == dtime_res,
    {
        HHT3_HH2Stream { nsync: 0, sync_period, dtime_res }
    }

    /// Decode one packed record, advancing the sync accumulator.
    pub fn parse_record(&mut self, record: u32) -> (r: TTTRRecord)
        requires
            hht3_next_nsync(old(self).nsync as int, record) + 1023 <= u64::MAX,
            (hht3_next_nsync(old(self).nsync as int, record) + 1023) * old(self).sync_period
                + 32767 * old(self).dtime_res <= u64::MAX,
        ensures
            final(self).nsync == hht3_next_nsync(old(self).nsync as int, record),
            final(self).sync_period == old(self).sync_period,
            final(self).dtime_res == old(self).dtime_res,
            r == hht3_event(
                old(self).nsync as int,
                record,
                old(self).sync_period,
                old(self).dtime_res,
            ),
    {
        proof {
            assert(hht3_dtime(record) <= 32767 && hht3_nsync_field(record) <= 1023 && hht2_ch(
                record,
            ) <= 0x3F) by (bit_vector);
        }
        let special = (record & 0x80000000) >> 31 == 1;
        let ch = (record & 0x7E000000) >> 25;
        let dtime = ((record & 0x01FFFC00) >> 10) as u64;
        let nsync = (record & 0x000003FF) as u64;

        let tof: u64;
        let channel: i32;

        if special {
            if ch == 0x3F {
                if nsync == 0 {
                    // zero or old style: a single overflow
                    self.nsync = self.nsync + T3_WRAPAROUND;
                } else {
                    self.nsync = self.nsync + T3_WRAPAROUND * nsync;
                }
                proof {
                    vstd::arithmetic::mul::lemma_mul_inequality(
                        self.nsync as int,
                        self.nsync as int + 1023,
                        self.sync_period as int,
                    );
                }
                tof = self.nsync * self.sync_period;
                channel = 0;
            } else if ch >= 1 && ch <= 15 {
                // markers; signalled by a negative channel number
                proof {
                    vstd::arithmetic::mul::lemma_mul_inequality(
                        self.nsync as int,
                        self.nsync as int + 1023,
                        self.sync_period as int,
                    );
                }
                tof = self.nsync * self.sync_period;
                channel = -1;
            } else {
                tof = 0;
                channel = -1;
            }
        } else {
            let truensync = self.nsync + nsync;
            proof {
                vstd::arithmetic::mul::lemma_mul_inequality(
                    truensync as int,
                    self.nsync as int + 1023,
                    self.sync_period as int,
                );
                vstd::arithmetic::mul::lemma_mul_inequality(
                    dtime as int,
                    32767,
                    self.dtime_res as int,
                );
            }
            // the sync counter scales by the sync period and the dtime by the
            // dtime resolution, both taken from the file header
            tof = truensync * self.sync_period + dtime * self.dtime_res;
            channel = ch as i32 + 1;
        }
        TTTRRecord { channel, tof }
    }

    /// Decode a whole record range. Every word yields exactly one event.
    pub fn decode(&mut self, records: &Vec<u32>) -> (r: Vec<TTTRRecord>)
        requires
            hht3_ns_after(records@, old(self).nsync as int) + 1023 <= u64::MAX,
            (hht3_ns_after(records@, old(self).nsync as int) + 1023) * old(self).sync_period
                + 32767 * old(self).dtime_res <= u64::MAX,
        ensures
            final(self).nsync == hht3_ns_after(records@, old(self).nsync as int),
            final(self).sync_period == old(self).sync_period,
            final(self).dtime_res == old(self).dtime_res,
            r@ == hht3_events(
                records@,
                old(self).nsync as int,
                old(self).sync_period,
                old(self).dtime_res,
            ),
            r@.len() == records@.len(),
    {
        let ghost ns0 = old(self).nsync as int;
        let ghost nsf = hht3_ns_after(records@, ns0);
        let n = records.len();
        let mut r: Vec<TTTRRecord> = Vec::new();
        let mut i: usize = 0;
        while i < n
            invariant
                n == records@.len(),
                i <= n,
                r@.len() == i,
                nsf == hht3_ns_after(records@, ns0),
                nsf + 1023 <= u64::MAX,
                (nsf + 1023) * self.sync_period + 32767 * self.dtime_res <= u64::MAX,
                self.nsync == hht3_ns_after(records@.take(i as int), ns0),
                self.sync_period == old(self).sync_period,
                self.dtime_res == old(self).dtime_res,
                r@ == hht3_events(records@.take(i as int), ns0, self.sync_period, self.dtime_res),
            decreases n - i,
        {
            proof {
                lemma_hht3_ns_prefix(records@, ns0, i + 1);
                assert(records@.take(i + 1).drop_last() =~= records@.take(i as int));
                assert(records@.take(i + 1).last() == records@[i as int]);
                let w = records@[i as int];
                assert(hht3_next_nsync(self.nsync as int, w) == hht3_ns_after(
                    records@.take(i + 1),
                    ns0,
                ));
                vstd::arithmetic::mul::lemma_mul_inequality(
                    hht3_next_nsync(self.nsync as int, w) + 1023,
                    nsf + 1023,
                    self.sync_period as int,
                );
            }
            let ev = self.parse_record(records[i]);
            r.push(ev);
            i = i + 1;
        }
        proof {
            assert(records@.take(n as int) =~= records@);
        }
        r
    }
}

pub proof fn lemma_hht3_ns_prefix(ws: Seq<u32>, ns0: int, i: int)
    requires
        0 <= i <= ws.len(),
    ensures
        ns0 <= hht3_ns_after(ws.take(i), ns0) <= hht3_ns_after(ws, ns0),
    decreases ws.len() - i,
{
    lemma_hht3_ns_grows(ws.take(i), ns0);
    if i == ws.len() {
        assert(ws.take(i) =~= ws);
    } else {
        lemma_hht3_ns_prefix(ws, ns0, i + 1);
        assert(ws.take(i + 1).drop_last() =~= ws.take(i));
    }
}

pub proof fn lemma_hht3_ns_grows(ws: Seq<u32>, ns0: int)
    ensures
        ns0 <= hht3_ns_after(ws, ns0),
    decreases ws.len(),
{
    if ws.len() > 0 {
        lemma_hht3_ns_grows(ws.drop_last(), ns0);
        let w = ws.last();
        assert(hht3_nsync_field(w) >= 0) by (bit_vector);
    }
}

pub proof fn lemma_hht2_hh2_events_len(ws: Seq<u32>, ov0: int)
    ensures
        hht2_hh2_events(ws, ov0).len() == ws.len(),
    decreases ws.len(),
{
    if ws.len() > 0 {
        lemma_hht2_hh2_events_len(ws.drop_last(), ov0);
    }
}

pub proof fn lemma_hht2_hh2_events_index(ws: Seq<u32>, ov0: int, i: int)
    requires
        0 <= i < ws.len(),
    ensures
        hht2_hh2_events(ws, ov0).len() == ws.len(),
        hht2_hh2_events(ws, ov0)[i] == hht2_hh2_event(hht2_hh2_ov_after(ws.take(i), ov0), ws[i]),
    decreases ws.len(),
{
    lemma_hht2_hh2_events_len(ws, ov0);
    if i == ws.len() - 1 {
        assert(ws.take(i) =~= ws.drop_last());
    } else {
        lemma_hht2_hh2_events_index(ws.drop_last(), ov0, i);
        assert(ws.drop_last().take(i) =~= ws.take(i));
    }
}

/// Monotonicity law: within one decoded V2 stream, the time of flight
/// emitted on real photon channels (channel >= 0) is non-decreasing.
pub proof fn lemma_hht2_hh2_photon_monotone(ws: Seq<u32>, ov0: u64, i: int, j: int)
    requires
        hht2_hh2_wellformed(ws),
        hht2_hh2_ov_after(ws, ov0 as int) + 0x01FFFFFF <= u64::MAX,
        0 <= i < j < ws.len(),
        hht2_hh2_events(ws, ov0 as int)[i].channel >= 0,
        hht2_hh2_events(ws, ov0 as int)[j].channel >= 0,
    ensures
        hht2_hh2_events(ws, ov0 as int)[i].tof <= hht2_hh2_events(ws, ov0 as int)[j].tof,
{
    lemma_hht2_hh2_events_index(ws, ov0 as int, i);
    lemma_hht2_hh2_events_index(ws, ov0 as int, j);
    let wi = ws[i];
    let wj = ws[j];
    assert(hht2_tm(wi) <= 0x01FFFFFF && hht2_ch(wi) <= 0x3F) by (bit_vector);
    assert(hht2_tm(wj) <= 0x01FFFFFF && hht2_ch(wj) <= 0x3F) by (bit_vector);
    lemma_hht2_hh2_ov_prefix(ws, ov0 as int, i);
    lemma_hht2_hh2_ov_prefix(ws, ov0 as int, j);
    lemma_hht2_hh2_unwrapped_monotone(ws, ov0 as int, i, j);
}

/// A photon record of the T3 stream.
pub open spec fn hht3_is_photon(w: u32) -> bool {
    !hht2_sp(w)
}

/// A record that advances the sync accumulator: an overflow record (its
/// step is always at least one wraparound period).
pub open spec fn hht3_is_advance(w: u32) -> bool {
    hht2_sp(w) && hht2_ch(w) == 0x3F
}

pub open spec fn hht3_no_advance_between(ws: Seq<u32>, i: int, j: int) -> bool {
    forall|k: int| i < k < j ==> !hht3_is_advance(#[trigger] ws[k])
}

/// A T3 stream as the hardware emits it: every photon arrives within one
/// sync period of its sync pulse, and between two photons with no
/// overflow between them the pair (sync count, dtime) does not run
/// backwards.
pub open spec fn hht3_wellformed(ws: Seq<u32>, sync_period: u64, dtime_res: u64) -> bool {
    &&& forall|k: int|
        0 <= k < ws.len() && hht3_is_photon(#[trigger] ws[k]) ==> hht3_dtime(ws[k]) * dtime_res
            < sync_period
    &&& forall|i: int, j: int|
        #![trigger ws[i], ws[j]]
        0 <= i < j < ws.len() && hht3_is_photon(ws[i]) && hht3_is_photon(ws[j])
            && hht3_no_advance_between(ws, i, j) ==> (hht3_nsync_field(ws[i])
            < hht3_nsync_field(ws[j]) || (hht3_nsync_field(ws[i]) == hht3_nsync_field(ws[j])
            && hht3_dtime(ws[i]) <= hht3_dtime(ws[j])))
}

pub proof fn lemma_hht3_ns_mono2(ws: Seq<u32>, ns0: int, i: int, j: int)
    requires
        0 <= i <= j <= ws.len(),
    ensures
        hht3_ns_after(ws.take(i), ns0) <= hht3_ns_after(ws.take(j), ns0),
    decreases j - i,
{
    if i < j {
        lemma_hht3_ns_mono2(ws, ns0, i, j - 1);
        assert(ws.take(j).drop_last() =~= ws.take(j - 1));
        let w = ws[j - 1];
        assert(hht3_nsync_field(w) >= 0) by (bit_vector);
    }
}

/// The unwrapped time of a photon record, before truncation to 64 bits.
pub open spec fn hht3_photon_time(
    ws: Seq<u32>,
    ns0: int,
    i: int,
    sync_period: u64,
    dtime_res: u64,
) -> int {
    (hht3_ns_after(ws.take(i), ns0) + hht3_nsync_field(ws[i])) * sync_period + hht3_dtime(ws[i])
        * dtime_res
}

/// After an overflow record, the accumulator dominates everything an
/// earlier photon's time can reach: either no overflow stands in the gap
/// (and the accumulator is unchanged), or the photon's time lies below the
/// accumulator scaled by the sync period.
proof fn lemma_hht3_gap(ws: Seq<u32>, ns0: int, i: int, j: int, sync_period: u64, dtime_res: u64)
    requires
        hht3_wellformed(ws, sync_period, dtime_res),
        0 <= i < j <= ws.len(),
        hht3_is_photon(ws[i]),
    ensures
        (hht3_no_advance_between(ws, i, j) && hht3_ns_after(ws.take(j), ns0) == hht3_ns_after(
            ws.take(i),
            ns0,
        )) || hht3_photon_time(ws, ns0, i, sync_period, dtime_res) < hht3_ns_after(
            ws.take(j),
            ns0,
        ) * sync_period,
    decreases j - i,
{
    assert(ws.take(j).drop_last() =~= ws.take(j - 1));
    assert(ws.take(j).last() == ws[j - 1]);
    let nsi = hht3_ns_after(ws.take(i), ns0);
    let w = ws[j - 1];
    assert(hht3_nsync_field(w) <= 1023 && hht3_dtime(w) <= 32767) by (bit_vector);
    if j == i + 1 {
        // a photon record leaves the accumulator alone
    } else {
        lemma_hht3_gap(ws, ns0, i, j - 1, sync_period, dtime_res);
        let nsj1 = hht3_ns_after(ws.take(j - 1), ns0);
        let nsj = hht3_ns_after(ws.take(j), ns0);
        if hht3_is_advance(w) {
            // the step is at least one wraparound period
            assert(nsj >= nsj1 + 1024);
            let wi = ws[i];
            assert(hht3_nsync_field(wi) <= 1023) by (bit_vector);
            if hht3_no_advance_between(ws, i, j - 1) && nsj1 == nsi {
                // photon time < (nsi + nsync + 1) * sync_period
                vstd::arithmetic::mul::lemma_mul_inequality(
                    nsi + hht3_nsync_field(wi) + 1,
                    nsj,
                    sync_period as int,
                );
                vstd::arithmetic::mul::lemma_mul_is_distributive_add(
                    sync_period as int,
                    nsi + hht3_nsync_field(wi),
                    1,
                );
                vstd::arithmetic::mul::lemma_mul_basics(sync_period as int);
                vstd::arithmetic::mul::lemma_mul_is_commutative(
                    nsi + hht3_nsync_field(wi),
                    sync_period as int,
                );
                vstd::arithmetic::mul::lemma_mul_is_commutative(
                    nsi + hht3_nsync_field(wi) + 1,
                    sync_period as int,
                );
                vstd::arithmetic::mul::lemma_mul_is_commutative(nsj, sync_period as int);
            } else {
                vstd::arithmetic::mul::lemma_mul_inequality(nsj1, nsj, sync_period as int);
                vstd::arithmetic::mul::lemma_mul_is_commutative(nsj1, sync_period as int);
                vstd::arithmetic::mul::lemma_mul_is_commutative(nsj, sync_period as int);
            }
        } else {
            assert(nsj == nsj1);
        }
    }
}

/// Monotonicity law for the T3 stream: unwrapped photon times are
/// non-decreasing within one well-formed stream.
pub proof fn lemma_hht3_photon_monotone_unwrapped(
    ws: Seq<u32>,
    ns0: int,
    i: int,
    j: int,
    sync_period: u64,
    dtime_res: u64,
)
    requires
        hht3_wellformed(ws, sync_period, dtime_res),
        0 <= i < j < ws.len(),
        hht3_is_photon(ws[i]),
        hht3_is_photon(ws[j]),
    ensures
        hht3_photon_time(ws, ns0, i, sync_period, dtime_res) <= hht3_photon_time(
            ws,
            ns0,
            j,
            sync_period,
            dtime_res,
        ),
{
    lemma_hht3_gap(ws, ns0, i, j, sync_period, dtime_res);
    let nsi = hht3_ns_after(ws.take(i), ns0);
    let nsj = hht3_ns_after(ws.take(j), ns0);
    let wi = ws[i];
    let wj = ws[j];
    assert(hht3_nsync_field(wi) <= 1023 && hht3_dtime(wi) <= 32767) by (bit_vector);
    assert(hht3_nsync_field(wj) <= 1023 && hht3_dtime(wj) <= 32767) by (bit_vector);
    if hht3_no_advance_between(ws, i, j) && nsj == nsi {
        // the well-formedness pair ordering decides, with a shared
        // accumulator
        if hht3_nsync_field(wi) < hht3_nsync_field(wj) {
            vstd::arithmetic::mul::lemma_mul_inequality(
                nsi + hht3_nsync_field(wi) + 1,
                nsj + hht3_nsync_field(wj),
                sync_period as int,
            );
            vstd::arithmetic::mul::lemma_mul_is_distributive_add(
                sync_period as int,
                nsi + hht3_nsync_field(wi),
                1,
            );
            vstd::arithmetic::mul::lemma_mul_basics(sync_period as int);
            vstd::arithmetic::mul::lemma_mul_is_commutative(
                nsi + hht3_nsync_field(wi),
                sync_period as int,
            );
            vstd::arithmetic::mul::lemma_mul_is_commutative(
                nsi + hht3_nsync_field(wi) + 1,
                sync_period as int,
            );
            vstd::arithmetic::mul::lemma_mul_is_commutative(
                nsj + hht3_nsync_field(wj),
                sync_period as int,
            );
            vstd::arithmetic::mul::lemma_mul_nonnegative(
                hht3_dtime(wj) as int,
                dtime_res as int,
            );
        } else {
            // equal sync counts: the dtime ordering decides
            vstd::arithmetic::mul::lemma_mul_inequality(
                hht3_dtime(wi) as int,
                hht3_dtime(wj) as int,
                dtime_res as int,
            );
            vstd::arithmetic::mul::lemma_mul_is_commutative(
                hht3_dtime(wi) as int,
                dtime_res as int,
            );
            vstd::arithmetic::mul::lemma_mul_is_commutative(
                hht3_dtime(wj) as int,
                dtime_res as int,
            );
        }
    } else {
        // the photon time lies below the accumulator at j, which the
        // photon at j only adds to
        vstd::arithmetic::mul::lemma_mul_inequality(
            nsj,
            nsj + hht3_nsync_field(wj),
            sync_period as int,
        );
        vstd::arithmetic::mul::lemma_mul_is_commutative(nsj, sync_period as int);
        vstd::arithmetic::mul::lemma_mul_is_commutative(
            nsj + hht3_nsync_field(wj),
            sync_period as int,
        );
        vstd::arithmetic::mul::lemma_mul_nonnegative(hht3_dtime(wj) as int, dtime_res as int);
    }
}

pub proof fn lemma_hht3_events_len(ws: Seq<u32>, ns0: int, sync_period: u64, dtime_res: u64)
    ensures
        hht3_events(ws, ns0, sync_period, dtime_res).len() == ws.len(),
    decreases ws.len(),
{
    if ws.len() > 0 {
        lemma_hht3_events_len(ws.drop_last(), ns0, sync_period, dtime_res);
    }
}

pub proof fn lemma_hht3_events_index(
    ws: Seq<u32>,
    ns0: int,
    i: int,
    sync_period: u64,
    dtime_res: u64,
)
    requires
        0 <= i < ws.len(),
    ensures
        hht3_events(ws, ns0, sync_period, dtime_res).len() == ws.len(),
        hht3_events(ws, ns0, sync_period, dtime_res)[i] == hht3_event(
            hht3_ns_after(ws.take(i), ns0),
            ws[i],
            sync_period,
            dtime_res,
        ),
    decreases ws.len(),
{
    lemma_hht3_events_len(ws, ns0, sync_period, dtime_res);
    if i == ws.len() - 1 {
        assert(ws.take(i) =~= ws.drop_last());
    } else {
        lemma_hht3_events_index(ws.drop_last(), ns0, i, sync_period, dtime_res);
        assert(ws.drop_last().take(i) =~= ws.take(i));
    }
}

/// The unwrapped photon time stays below the ceiling the stream bound
/// grants to the whole stream.
proof fn lemma_hht3_photon_time_fits(
    ws: Seq<u32>,
    ns0: int,
    i: int,
    sync_period: u64,
    dtime_res: u64,
)
    requires
        0 <= ns0,
        0 <= i < ws.len(),
        hht3_is_photon(ws[i]),
    ensures
        0 <= hht3_photon_time(ws, ns0, i, sync_period, dtime_res) <= (hht3_ns_after(ws, ns0)
            + 1023) * sync_period + 32767 * dtime_res,
{
    let wi = ws[i];
    assert(hht3_nsync_field(wi) <= 1023 && hht3_dtime(wi) <= 32767) by (bit_vector);
    lemma_hht3_ns_prefix(ws, ns0, i);
    let nsi = hht3_ns_after(ws.take(i), ns0);
    vstd::arithmetic::mul::lemma_mul_inequality(
        nsi + hht3_nsync_field(wi),
        hht3_ns_after(ws, ns0) + 1023,
        sync_period as int,
    );
    vstd::arithmetic::mul::lemma_mul_is_commutative(
        nsi + hht3_nsync_field(wi),
        sync_period as int,
    );
    vstd::arithmetic::mul::lemma_mul_is_commutative(
        hht3_ns_after(ws, ns0) + 1023,
        sync_period as int,
    );
    vstd::arithmetic::mul::lemma_mul_inequality(
        hht3_dtime(wi) as int,
        32767,
        dtime_res as int,
    );
    vstd::arithmetic::mul::lemma_mul_is_commutative(hht3_dtime(wi) as int, dtime_res as int);
    vstd::arithmetic::mul::lemma_mul_is_commutative(32767, dtime_res as int);
    vstd::arithmetic::mul::lemma_mul_nonnegative(
        nsi + hht3_nsync_field(wi),
        sync_period as int,
    );
    vstd::arithmetic::mul::lemma_mul_nonnegative(hht3_dtime(wi) as int, dtime_res as int);
}

/// Monotonicity law: within one decoded T3 stream, the time of flight
/// emitted on real photon channels (channel >= 1) is non-decreasing.
pub proof fn lemma_hht3_photon_monotone(
    ws: Seq<u32>,
    ns0: u64,
    i: int,
    j: int,
    sync_period: u64,
    dtime_res: u64,
)
    requires
        hht3_wellformed(ws, sync_period, dtime_res),
        (hht3_ns_after(ws, ns0 as int) + 1023) * sync_period + 32767 * dtime_res <= u64::MAX,
        0 <= i < j < ws.len(),
        hht3_events(ws, ns0 as int, sync_period, dtime_res)[i].channel >= 1,
        hht3_events(ws, ns0 as int, sync_period, dtime_res)[j].channel >= 1,
    ensures
        hht3_events(ws, ns0 as int, sync_period, dtime_res)[i].tof <= hht3_events(
            ws,
            ns0 as int,
            sync_period,
            dtime_res,
        )[j].tof,
{
    lemma_hht3_events_index(ws, ns0 as int, i, sync_period, dtime_res);
    lemma_hht3_events_index(ws, ns0 as int, j, sync_period, dtime_res);
    let wi = ws[i];
    let wj = ws[j];
    assert(hht2_ch(wi) <= 0x3F && hht2_ch(wj) <= 0x3F) by (bit_vector);
    lemma_hht3_photon_time_fits(ws, ns0 as int, i, sync_period, dtime_res);
    lemma_hht3_photon_time_fits(ws, ns0 as int, j, sync_period, dtime_res);
    lemma_hht3_photon_monotone_unwrapped(ws, ns0 as int, i, j, sync_period, dtime_res);
}

/// The events a word sequence decodes to under a given format, from fresh
/// decoder state. The T3 format takes the sync period and the dtime
/// resolution, in picoseconds, from the file header.
pub open spec fn decoded_events(
    rt: crate::headers::RecordType,
    ws: Seq<u32>,
    sync_period: u64,
    dtime_res: u64,
) -> Seq<TTTRRecord> {
    match rt {
        crate::headers::RecordType::PHT2 => pht2_events(ws, 0),
        crate::headers::RecordType::HHT2_HH1 => hht2_hh1_events(ws, 0),
        crate::headers::RecordType::HHT2_HH2 => hht2_hh2_events(ws, 0),
        crate::headers::RecordType::HHT3_HH2 => hht3_events(ws, 0, sync_period, dtime_res),
        crate::headers::RecordType::NotImplemented => Seq::empty(),
    }
}

/// Whether a word sequence can be decoded without its accumulator or any
/// time of flight leaving 64 bits.
pub open spec fn stream_fits(
    rt: crate::headers::RecordType,
    ws: Seq<u32>,
    sync_period: u64,
    dtime_res: u64,
) -> bool {
    match rt {
        crate::headers::RecordType::PHT2 => pht2_ov_after(ws, 0) + 0x0FFFFFFF <= u64::MAX,
        crate::headers::RecordType::HHT2_HH1 => hht2_hh1_ov_after(ws, 0) + 0x01FFFFFF
            <= u64::MAX,
        crate::headers::RecordType::HHT2_HH2 => hht2_hh2_ov_after(ws, 0) + 0x01FFFFFF
            <= u64::MAX,
        crate::headers::RecordType::HHT3_HH2 => hht3_ns_after(ws, 0) + 1023 <= u64::MAX && (
        hht3_ns_after(ws, 0) + 1023) * sync_period + 32767 * dtime_res <= u64::MAX,
        crate::headers::RecordType::NotImplemented => true,
    }
}

/// Decode a whole record range under the given format, from fresh decoder
/// state.
pub fn decode_stream(
    rt: crate::headers::RecordType,
    words: &Vec<u32>,
    sync_period: u64,
    dtime_res: u64,
) -> (r: Vec<TTTRRecord>)
    requires
        rt != crate::headers::RecordType::NotImplemented,
        stream_fits(rt, words@, sync_period, dtime_res),
    ensures
        r@ == decoded_events(rt, words@, sync_period, dtime_res),
        r@.len() == words@.len(),
{
    match rt {
        crate::headers::RecordType::PHT2 => {
            let mut stream = PHT2Stream::new();
            stream.decode(words)
        },
        crate::headers::RecordType::HHT2_HH1 => {
            let mut stream = HHT2_HH1Stream::new();
            stream.decode(words)
        },
        crate::headers::RecordType::HHT2_HH2 => {
            let mut stream = HHT2_HH2Stream::new();
            stream.decode(words)
        },
        crate::headers::RecordType::HHT3_HH2 => {
            let mut stream = HHT3_HH2Stream::new(sync_period, dtime_res);
            stream.decode(words)
        },
        crate::headers::RecordType::NotImplemented => Vec::new(),
    }
}

} // verus!

