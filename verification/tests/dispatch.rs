use tttr_toolbox::errors::Error;
use tttr_toolbox::g2::{g2, G2Mode, G2Params};
use tttr_toolbox::g3::{g3, G3Params};
use tttr_toolbox::headers::{File, RecordType};
use tttr_toolbox::lifetime::{lifetime, LifetimeParams};
use tttr_toolbox::ptu::PTUFile;
use tttr_toolbox::synced_g3::{g3_sync, G3SyncParams};
use tttr_toolbox::timetrace::{timetrace, TimeTraceParams};
use tttr_toolbox::zero_finder::{zerofinder, ZeroFinderParams};

fn pht2_file(num_records: u64) -> PTUFile {
    PTUFile {
        rec_type_code: 0x00010203,
        num_records,
        data_offset: 0,
        sync_period_ps: 0,
        dtime_res_ps: 0,
    }
}

#[test]
fn record_type_table_follows_the_header_codes() {
    let mut f = pht2_file(0);
    assert!(matches!(f.record_type(), Ok(RecordType::PHT2)));
    f.rec_type_code = 0x00010204;
    assert!(matches!(f.record_type(), Ok(RecordType::HHT2_HH1)));
    f.rec_type_code = 0x01010204;
    assert!(matches!(f.record_type(), Ok(RecordType::HHT2_HH2)));
    f.rec_type_code = 0x00010205;
    assert!(matches!(f.record_type(), Ok(RecordType::HHT2_HH2)));
    f.rec_type_code = 0x00010206;
    assert!(matches!(f.record_type(), Ok(RecordType::HHT2_HH2)));
    for t3 in [0x00010303i64, 0x00010304, 0x01010304, 0x00010305, 0x00010306] {
        f.rec_type_code = t3;
        assert!(matches!(f.record_type(), Ok(RecordType::NotImplemented)));
    }
    f.rec_type_code = 0x999;
    assert!(matches!(f.record_type(), Err(Error::InvalidHeader(_))));
}

#[test]
fn timetrace_dispatch_decodes_and_runs() {
    let file = File::PTU(pht2_file(3));
    let words = vec![0x00000001u32, 0xF0000000, 0x00000002];
    let params = TimeTraceParams { ticks_per_bin: 1_000_000, channel: None };
    let r = timetrace(&file, &params, &words).unwrap();
    // the overflow jump closes the first bin, which holds the one photon
    // before it; no trailing bin is emitted
    assert_eq!(r.intensity, vec![1]);
    assert_eq!(r.recnum_trace, vec![2]);
}

#[test]
fn g2_dispatch_asymmetric_over_one_range() {
    let file = File::PTU(pht2_file(4));
    // PHT2 photons: channel in the top nibble, time below
    let words = vec![
        100u32,
        (1 << 28) | 150,
        200,
        (1 << 28) | 260,
    ];
    let params = G2Params { channel_1: 0, channel_2: 1, n_bins_side: 4, resolution_ticks: 50 };
    let r = g2(&file, &params, G2Mode::Asymmetric, &vec![words]).unwrap();
    let mut expected = vec![0u64; 8];
    expected[5] = 2;
    expected[2] = 1;
    expected[7] = 1;
    assert_eq!(r.hist, expected);
}

#[test]
fn g2_dispatch_symmetric_over_two_ranges() {
    let file = File::PTU(pht2_file(4));
    let range_1 = vec![100u32, (1 << 28) | 150];
    let range_2 = vec![100u32, (1 << 28) | 160];
    let params = G2Params { channel_1: 0, channel_2: 1, n_bins_side: 4, resolution_ticks: 50 };
    let r = g2(&file, &params, G2Mode::Symmetric, &vec![range_1, range_2]).unwrap();
    let mut expected = vec![0u64; 8];
    expected[5] = 2;  // delays 50 and 60 share a bin
    assert_eq!(r.hist, expected);
}

#[test]
fn g3_dispatch_runs_on_t2_streams() {
    let file = File::PTU(pht2_file(3));
    let words = vec![
        (1u32 << 28) | 10,
        (2 << 28) | 20,
        (3 << 28) | 30,
    ];
    let params = G3Params {
        channel_1: 1,
        channel_2: 2,
        channel_3: 3,
        n_bins_side: 4,
        resolution_ticks: 10,
    };
    let r = g3(&file, &params, &words).unwrap();
    let mut expected = vec![0u64; 64];
    expected[(4 + 1) * 8 + (4 + 2)] = 1;
    assert_eq!(r.hist, expected);
}

#[test]
fn zerofinder_dispatch_runs_on_t2_streams() {
    let file = File::PTU(pht2_file(2));
    let words = vec![100u32, (1 << 28) | 150];
    let params = ZeroFinderParams { channel_1: 0, channel_2: 1, n_bins_side: 4, resolution_ticks: 50 };
    let r = zerofinder(&file, &params, &words).unwrap();
    let mut expected = vec![0u64; 8];
    expected[1] = 1;
    expected[5] = 1;
    assert_eq!(r.hist, expected);
}

#[test]
fn t3_only_engines_refuse_t2_streams() {
    let file = File::PTU(pht2_file(0));
    let words: Vec<u32> = Vec::new();
    let lt_params = LifetimeParams { channel_sync: 0, channel_source: 1, n_bins: 10, bin_ticks: 10 };
    assert!(matches!(lifetime(&file, &lt_params, &words), Err(Error::NotImplemented(_))));
    let gs_params = G3SyncParams { channel_sync: 0, channel_1: 1, channel_2: 2, n_bins: 5 };
    assert!(matches!(g3_sync(&file, &gs_params, &words), Err(Error::NotImplemented(_))));
}
