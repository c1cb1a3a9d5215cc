use tttr_toolbox::g2::{g2_asymmetric_events, g2_compute, g2_symmetric_events, G2Params};
use tttr_toolbox::g3::{g3_events, G3Params};
use tttr_toolbox::lifetime::{lifetime_events, LifetimeParams};
use tttr_toolbox::synced_g3::{g3_sync_events, G3SyncParams};
use tttr_toolbox::timetrace::{timetrace_events, TimeTraceParams};
use tttr_toolbox::zero_finder::{zerofinder_events, ZeroFinderParams};
use tttr_toolbox::TTTRRecord;

fn ev(channel: i32, tof: u64) -> TTTRRecord {
    TTTRRecord { channel, tof }
}

#[test]
fn timetrace_emits_one_bin_per_closing_event() {
    let events = vec![ev(0, 5), ev(0, 15), ev(0, 28)];
    let params = TimeTraceParams { ticks_per_bin: 10, channel: None };
    let r = timetrace_events(&events, &params);
    assert_eq!(r.intensity, vec![1, 1]);
    assert_eq!(r.recnum_trace, vec![1, 2]);
}

#[test]
fn timetrace_with_channel_filter_counts_exact_matches_only() {
    let events = vec![ev(0, 1), ev(1, 2), ev(0, 3), ev(1, 12)];
    let params = TimeTraceParams { ticks_per_bin: 10, channel: Some(0) };
    let r = timetrace_events(&events, &params);
    assert_eq!(r.intensity, vec![2]);
    assert_eq!(r.recnum_trace, vec![3]);
}

#[test]
fn timetrace_empty_selector_sums_all_real_channels_and_no_sentinels() {
    // sentinels (-1, -2) must not be counted; all non-negative channels are
    let events = vec![ev(0, 1), ev(-1, 0), ev(3, 2), ev(-2, 3), ev(7, 4), ev(1, 20)];
    let params = TimeTraceParams { ticks_per_bin: 10, channel: None };
    let r = timetrace_events(&events, &params);
    // the bin closed by the event at t=20 holds the three real clicks
    // before it; the closing click stays in the open trailing bin
    assert_eq!(r.intensity, vec![3]);
    assert_eq!(r.recnum_trace, vec![5]);
}

#[test]
fn timetrace_drops_partial_trailing_bin() {
    let events = vec![ev(0, 1), ev(0, 2)];
    let params = TimeTraceParams { ticks_per_bin: 10, channel: None };
    let r = timetrace_events(&events, &params);
    assert_eq!(r.intensity, Vec::<u64>::new());
    assert_eq!(r.recnum_trace, Vec::<u64>::new());
}

#[test]
fn lifetime_folds_delays_into_one_sync_period() {
    let events = vec![ev(0, 1000), ev(1, 1025), ev(1, 1137)];
    let params = LifetimeParams { channel_sync: 0, channel_source: 1, n_bins: 10, bin_ticks: 10 };
    let r = lifetime_events(&events, &params, 100);
    let mut expected = vec![0u64; 10];
    expected[2] = 1;  // delay 25
    expected[3] = 1;  // delay 137 folded to 37
    assert_eq!(r.hist, expected);
}

#[test]
fn lifetime_histogram_has_one_sync_period_of_bins() {
    let events: Vec<TTTRRecord> = Vec::new();
    let params = LifetimeParams { channel_sync: 0, channel_source: 1, n_bins: 25, bin_ticks: 4 };
    let r = lifetime_events(&events, &params, 100);
    assert_eq!(r.hist.len(), 25);
}

#[test]
fn g2_asymmetric_counts_windowed_pairs_on_both_sides() {
    let events = vec![ev(0, 100), ev(1, 150), ev(0, 200), ev(1, 260)];
    let params = G2Params { channel_1: 0, channel_2: 1, n_bins_side: 4, resolution_ticks: 50 };
    let r = g2_asymmetric_events(&events, &params);
    assert_eq!(r.hist.len(), 8);
    let central = 4;
    let mut expected = vec![0u64; 8];
    expected[central + 1] = 2;  // delays 50 and 60, channel 2 after channel 1
    expected[central - 2] = 1;  // delay 50, channel 1 after channel 2
    expected[central + 3] = 1;  // delay 160, channel 2 after channel 1
    assert_eq!(r.hist, expected);
}

#[test]
fn g2_histogram_length_is_twice_the_bins_per_side() {
    let events: Vec<TTTRRecord> = Vec::new();
    let params = G2Params { channel_1: 0, channel_2: 1, n_bins_side: 7, resolution_ticks: 10 };
    let r = g2_asymmetric_events(&events, &params);
    assert_eq!(r.hist.len(), 14);
}

#[test]
fn g2_equal_channels_produces_a_zero_histogram() {
    let events = vec![ev(0, 10), ev(0, 20), ev(0, 30), ev(0, 40)];
    let params = G2Params { channel_1: 0, channel_2: 0, n_bins_side: 4, resolution_ticks: 50 };
    let r = g2_asymmetric_events(&events, &params);
    assert_eq!(r.hist, vec![0u64; 8]);
}

#[test]
fn g2_swapping_the_channels_mirrors_the_histogram() {
    let events = vec![
        ev(0, 100),
        ev(1, 130),
        ev(1, 150),
        ev(0, 210),
        ev(1, 260),
        ev(0, 300),
    ];
    let p = G2Params { channel_1: 0, channel_2: 1, n_bins_side: 4, resolution_ticks: 50 };
    let q = G2Params { channel_1: 1, channel_2: 0, n_bins_side: 4, resolution_ticks: 50 };
    let a = g2_asymmetric_events(&events, &p).hist;
    let b = g2_asymmetric_events(&events, &q).hist;
    for k in 0..8 {
        assert_eq!(b[k], a[7 - k]);
    }
    assert!(a.iter().sum::<u64>() > 0);
}

#[test]
fn g2_delays_at_or_past_the_window_are_dropped() {
    let events = vec![ev(0, 0), ev(1, 200)];
    let params = G2Params { channel_1: 0, channel_2: 1, n_bins_side: 4, resolution_ticks: 50 };
    let r = g2_asymmetric_events(&events, &params);
    assert_eq!(r.hist, vec![0u64; 8]);
}

#[test]
fn g2_symmetric_accumulates_ranges_with_fresh_buffers() {
    let range_1 = vec![ev(0, 100), ev(1, 150)];
    let range_2 = vec![ev(0, 1000), ev(1, 1050)];
    let params = G2Params { channel_1: 0, channel_2: 1, n_bins_side: 4, resolution_ticks: 50 };
    let r = g2_symmetric_events(&vec![range_1, range_2], &params);
    let mut expected = vec![0u64; 8];
    expected[4 + 1] = 2;  // one delay-50 pair per range
    assert_eq!(r.hist, expected);

    // the buffers reset between ranges: the click at t=100 in the first
    // range is never paired with the one at t=1050 in the second
    let range_a = vec![ev(0, 100)];
    let range_b = vec![ev(1, 150)];
    let r2 = g2_symmetric_events(&vec![range_a, range_b], &params);
    assert_eq!(r2.hist, vec![0u64; 8]);
}

#[test]
fn g2_compute_accumulates_into_an_existing_histogram() {
    let events = vec![ev(0, 100), ev(1, 150)];
    let params = G2Params { channel_1: 0, channel_2: 1, n_bins_side: 4, resolution_ticks: 50 };
    let mut hist = vec![0u64; 8];
    g2_compute(&events, &params, &mut hist);
    g2_compute(&events, &params, &mut hist);
    assert_eq!(hist[5], 2);
}

#[test]
fn zerofinder_keeps_only_the_most_recent_click_per_channel() {
    let events = vec![ev(0, 100), ev(1, 150)];
    let params = ZeroFinderParams { channel_1: 0, channel_2: 1, n_bins_side: 4, resolution_ticks: 50 };
    let r = zerofinder_events(&events, &params);
    assert_eq!(r.hist.len(), 8);
    let mut expected = vec![0u64; 8];
    expected[4 - 2 - 1] = 1;  // the first click pairs with the zero seed
    expected[4 + 1] = 1;  // delay 50, channel 2 after channel 1
    assert_eq!(r.hist, expected);
}

#[test]
fn g3_counts_one_ordered_triple() {
    let events = vec![ev(1, 10), ev(2, 20), ev(3, 30)];
    let params = G3Params {
        channel_1: 1,
        channel_2: 2,
        channel_3: 3,
        n_bins_side: 4,
        resolution_ticks: 10,
    };
    let r = g3_events(&events, &params);
    assert_eq!(r.n_bins, 8);
    assert_eq!(r.hist.len(), 64);
    // permutation (3, 2, 1): tau_1 = 10 and tau_2 = 20, both positive
    let mut expected = vec![0u64; 64];
    expected[(4 + 1) * 8 + (4 + 2)] = 1;
    assert_eq!(r.hist, expected);
}

#[test]
fn g3_ignores_unconfigured_channels() {
    let events = vec![ev(7, 10), ev(2, 20), ev(3, 30)];
    let params = G3Params {
        channel_1: 1,
        channel_2: 2,
        channel_3: 3,
        n_bins_side: 4,
        resolution_ticks: 10,
    };
    let r = g3_events(&events, &params);
    assert_eq!(r.hist, vec![0u64; 64]);
}

#[test]
fn g3_sync_counts_pairs_behind_a_sync_click() {
    let events = vec![ev(0, 5), ev(1, 12), ev(2, 20)];
    let params = G3SyncParams { channel_sync: 0, channel_1: 1, channel_2: 2, n_bins: 5 };
    let r = g3_sync_events(&events, &params, 50);
    assert_eq!(r.n_bins, 5);
    assert_eq!(r.hist.len(), 25);
    // tau_1 = 7 (channel 1 behind the sync), tau_2 = 15 (channel 2),
    // resolution 50 / 5 = 10
    let mut expected = vec![0u64; 25];
    expected[0 * 5 + 1] = 1;
    assert_eq!(r.hist, expected);
}

#[test]
fn g3_sync_without_sync_clicks_stays_empty() {
    let events = vec![ev(1, 12), ev(2, 20), ev(1, 30)];
    let params = G3SyncParams { channel_sync: 0, channel_1: 1, channel_2: 2, n_bins: 5 };
    let r = g3_sync_events(&events, &params, 50);
    assert_eq!(r.hist, vec![0u64; 25]);
}
