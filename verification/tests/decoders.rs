use tttr_toolbox::ptu::{record_range, records_from_bytes};
use tttr_toolbox::streamers::{HHT2_HH1Stream, HHT2_HH2Stream, HHT3_HH2Stream, PHT2Stream};

#[test]
fn pht2_photon_overflow_photon() {
    let mut stream = PHT2Stream::new();
    let words = vec![0x00000001u32, 0xF0000000, 0x00000002];
    let events = stream.decode(&words);
    assert_eq!(events.len(), 3);
    assert_eq!(events[0].channel(), 0);
    assert_eq!(events[0].tof(), 1);
    assert_eq!(events[1].channel(), -1);
    assert_eq!(events[1].tof(), 0);
    assert_eq!(events[2].channel(), 0);
    assert_eq!(events[2].tof(), 210698240 + 2);
}

#[test]
fn pht2_overflow_run_advances_accumulator_linearly() {
    let mut stream = PHT2Stream::new();
    let words = vec![0xF0000000u32, 0xF0000000, 0xF0000000, 0x00000007];
    let events = stream.decode(&words);
    assert_eq!(stream.overflow_correction, 3 * 210698240);
    assert_eq!(events[3].tof(), 3 * 210698240 + 7);
}

#[test]
fn pht2_marker_keeps_time_and_flags_channel() {
    let mut stream = PHT2Stream::new();
    let ev = stream.parse_record(0xF0000013);
    assert_eq!(ev.channel(), -2);
    assert_eq!(ev.tof(), 0x13);
    assert_eq!(stream.overflow_correction, 0);
}

#[test]
fn hht2_hh1_special_non_overflow_is_channel_zero() {
    let mut stream = HHT2_HH1Stream::new();
    let ev = stream.parse_record(0x80000000);
    assert_eq!(ev.channel(), 0);
    assert_eq!(ev.tof(), 0);
    assert_eq!(stream.overflow_correction, 0);
}

#[test]
fn hht2_hh1_overflow_adds_fixed_period() {
    let mut stream = HHT2_HH1Stream::new();
    let ev = stream.parse_record(0xFE000000);
    assert_eq!(stream.overflow_correction, 33552000);
    assert_eq!(ev.channel(), -63);
    assert_eq!(ev.tof(), 33552000);
    let photon = stream.parse_record(0x00000005);
    assert_eq!(photon.channel(), 1);
    assert_eq!(photon.tof(), 33552000 + 5);
}

#[test]
fn hht2_hh2_overflow_with_zero_count_is_a_no_op() {
    let mut stream = HHT2_HH2Stream::new();
    stream.parse_record(0xFE000000);
    assert_eq!(stream.overflow_correction, 0);
    let photon = stream.parse_record(0x00000005);
    assert_eq!(photon.channel(), 1);
    assert_eq!(photon.tof(), 5);
    stream.parse_record(0xFE000001);
    assert_eq!(stream.overflow_correction, 33554432);
}

#[test]
fn hht3_photon_combines_sync_counter_and_dtime() {
    let mut stream = HHT3_HH2Stream::new(12500, 4);
    stream.nsync = 10;
    // sp = 0, ch = 0, dtime = 100, nsync field = 5
    let word = (100u32 << 10) | 5;
    let ev = stream.parse_record(word);
    assert_eq!(ev.channel(), 1);
    assert_eq!(ev.tof(), 15 * 12500 + 100 * 4);
}

#[test]
fn hht3_overflow_records_advance_the_sync_counter() {
    let mut stream = HHT3_HH2Stream::new(1000, 1);
    // overflow with zero sync field: one wraparound
    let overflow_single = 0x80000000u32 | (0x3F << 25);
    let ev = stream.parse_record(overflow_single);
    assert_eq!(stream.nsync, 1024);
    assert_eq!(ev.channel(), 0);
    assert_eq!(ev.tof(), 1024 * 1000);
    // overflow with sync field 3: three wraparounds at once
    let overflow_multi = overflow_single | 3;
    stream.parse_record(overflow_multi);
    assert_eq!(stream.nsync, 1024 + 3 * 1024);
}

#[test]
fn hht3_marker_and_unknown_special_records() {
    let mut stream = HHT3_HH2Stream::new(1000, 1);
    stream.nsync = 2;
    let marker = 0x80000000u32 | (1 << 25);
    let ev = stream.parse_record(marker);
    assert_eq!(ev.channel(), -1);
    assert_eq!(ev.tof(), 2 * 1000);
    let unknown = 0x80000000u32 | (20 << 25);
    let ev2 = stream.parse_record(unknown);
    assert_eq!(ev2.channel(), -1);
    assert_eq!(ev2.tof(), 0);
}

#[test]
fn records_from_bytes_reads_little_endian_words_and_drops_tails() {
    let bytes = vec![1u8, 0, 0, 0, 2, 0, 0, 0x80, 0xFF];
    let words = records_from_bytes(&bytes);
    assert_eq!(words, vec![1u32, 0x80000002]);
}

#[test]
fn record_range_defaults_and_explicit_bounds() {
    let (offset, count) = record_range(100, 16, None, None);
    assert_eq!(offset, 16);
    assert_eq!(count, 100);
    let (offset, count) = record_range(100, 16, Some(10), Some(20));
    assert_eq!(offset, 16 + 40);
    assert_eq!(count, 10);
}

#[test]
fn range_and_decode_yield_one_event_per_record() {
    let (_, count) = record_range(1000, 0, Some(3), Some(8));
    assert_eq!(count, 5);
    let words = vec![1u32, 2, 3, 4, 5];
    let mut stream = PHT2Stream::new();
    let events = stream.decode(&words);
    assert_eq!(events.len(), count as usize);
}

#[test]
fn pht2_photon_tofs_are_monotone_across_overflows() {
    let mut stream = PHT2Stream::new();
    let words = vec![5u32, 900, 0xF0000000, 3, 0xF0000000, 0xF0000000, 17];
    let events = stream.decode(&words);
    let mut last = 0u64;
    for ev in &events {
        if ev.channel() >= 0 {
            assert!(ev.tof() >= last);
            last = ev.tof();
        }
    }
}
