use ni_streamer::channel::Func;
use ni_streamer::error::StreamError;
use ni_streamer::nidev::NIDev;
use ni_streamer::streamer::{RunPhase, StreamerWrap};

const S: u64 = 1_000_000_000;

fn nf(name: &str) -> StreamError {
    StreamError::NotFound { name: name.to_string() }
}

fn dnf(name: &str) -> StreamError {
    StreamError::DeviceNotFound {
        name: name.to_string(),
        registered: vec!["Dev1".to_string(), "Dev2".to_string()],
    }
}

fn tm(name: &str) -> StreamError {
    StreamError::TypeMismatch { name: name.to_string() }
}

fn two_devs() -> StreamerWrap {
    let mut s = StreamerWrap::new();
    s.add_ao_dev("Dev1", 1000).unwrap();
    s.add_do_dev("Dev2", 10_000).unwrap();
    s.add_ao_chan("Dev1", 0, 0, -5).unwrap();
    s.add_do_chan("Dev2", 0, 4, false, true).unwrap();
    s
}

#[test]
fn sampling_through_streamer() {
    let mut s = two_devs();
    s.ao_chan_add_instr("Dev1", 0, Func::Const(5_000_000), 0, Some((10 * S, false))).unwrap();
    assert_eq!(
        s.ao_chan_calc_nsamps("Dev1", 0, 3, Some(0), Some(10 * S)).unwrap(),
        vec![5_000_000, 5_000_000, 5_000_000]
    );
    assert_eq!(s.ao_chan_calc_nsamps("Dev1", 0, 2, Some(10 * S), Some(20 * S)).unwrap(), vec![0, 0]);
}

#[test]
fn open_instr_resolves_on_streamer_compile() {
    let mut s = two_devs();
    s.ao_chan_add_instr("Dev1", 0, Func::Const(1), 2 * S, None).unwrap();
    assert_eq!(s.compile(Some(8 * S)), Ok(8 * S));
    assert_eq!(s.chan_last_instr_end_time("Dev1", "ao0"), Ok(8 * S));
    assert_eq!(s.total_run_time(), 8 * S);
    assert!(s.is_fresh_compiled());
}

#[test]
fn compile_defaults_to_latest_end() {
    let mut s = two_devs();
    s.ao_chan_add_instr("Dev1", 0, Func::Const(1), 0, Some((3 * S, false))).unwrap();
    s.do_chan_add_instr("Dev2", 0, 4, Func::Const(true), S, Some((5 * S, false))).unwrap();
    assert_eq!(s.last_instr_end_time(), 6 * S);
    assert_eq!(s.dev_last_instr_end_time("Dev1"), Ok(3 * S));
    assert_eq!(s.compile(None), Ok(6 * S));
    assert_eq!(s.compile(Some(5 * S)), Err(StreamError::Compile { stop: 5 * S }));
    assert_eq!(s.total_run_time(), 6 * S);
}

#[test]
fn compile_twice_same_samples() {
    let mut s = two_devs();
    s.do_chan_add_instr("Dev2", 0, 4, Func::Const(true), 2, None).unwrap();
    assert_eq!(s.compile(Some(10)), Ok(10));
    let a = s.do_chan_calc_nsamps("Dev2", 0, 4, 5, Some(0), Some(10)).unwrap();
    assert_eq!(s.compile(Some(10)), Ok(10));
    let b = s.do_chan_calc_nsamps("Dev2", 0, 4, 5, Some(0), Some(10)).unwrap();
    assert_eq!(a, b);
    assert_eq!(a, vec![false, true, true, true, true]);
}

#[test]
fn reset_instr_appended_after_last_end() {
    let mut s = two_devs();
    s.ao_chan_add_instr("Dev1", 0, Func::Const(2), 0, Some((3 * S, false))).unwrap();
    s.add_reset_instr(Some(5 * S)).unwrap();
    // one sample period of the 1 kHz device
    assert_eq!(s.chan_last_instr_end_time("Dev1", "ao0"), Ok(5 * S + 1_000_000));
    assert_eq!(s.ao_chan_calc_nsamps("Dev1", 0, 1, Some(5 * S), Some(5 * S + 1)).unwrap(), vec![-5]);
    assert_eq!(s.chan_last_instr_end_time("Dev2", "port0/line4"), Ok(5 * S + 100_000));
    assert_eq!(s.do_chan_calc_nsamps("Dev2", 0, 4, 1, Some(5 * S), Some(5 * S + 1)).unwrap(), vec![true]);
}

#[test]
fn reset_instr_before_last_end_fails() {
    let mut s = two_devs();
    s.ao_chan_add_instr("Dev1", 0, Func::Const(2), 0, Some((3 * S, false))).unwrap();
    assert_eq!(s.add_reset_instr(Some(S)), Err(StreamError::ResetTime { time: S }));
    assert_eq!(s.chan_last_instr_end_time("Dev1", "ao0"), Ok(3 * S));
}

#[test]
fn reset_instr_defaults_to_latest_end() {
    let mut s = two_devs();
    s.ao_chan_add_instr("Dev1", 0, Func::Const(2), 0, Some((3 * S, false))).unwrap();
    s.add_reset_instr(None).unwrap();
    assert_eq!(s.chan_last_instr_end_time("Dev1", "ao0"), Ok(3 * S + 1_000_000));
    assert_eq!(s.chan_last_instr_end_time("Dev2", "port0/line4"), Ok(3 * S + 100_000));
}

#[test]
fn run_lifecycle() {
    let mut s = two_devs();
    assert_eq!(s.stream_run(false), Err(StreamError::Runtime));
    assert_eq!(s.close_run(), Err(StreamError::Runtime));
    s.cfg_run(150).unwrap();
    assert_eq!(s.run, RunPhase::Configured);
    assert_eq!(s.cfg_run(150), Err(StreamError::Runtime));
    s.stream_run(true).unwrap();
    s.stream_run(false).unwrap();
    assert_eq!(s.run, RunPhase::Running);
    assert_eq!(s.chunk, 2);
    s.close_run().unwrap();
    assert_eq!(s.run, RunPhase::Idle);
    assert_eq!(s.close_run(), Err(StreamError::Runtime));
}

#[test]
fn cfg_then_close_twice() {
    let mut s = StreamerWrap::new();
    s.cfg_run(100).unwrap();
    assert_eq!(s.close_run(), Ok(()));
    assert_eq!(s.close_run(), Err(StreamError::Runtime));
    assert_eq!(s.cfg_run(0), Err(StreamError::Value));
}

#[test]
fn device_errors() {
    let mut s = two_devs();
    assert_eq!(s.add_ao_dev("Dev1", 1000), Err(StreamError::DuplicateDevice));
    assert_eq!(s.add_do_dev("Dev3", 0), Ok(()));
    assert_eq!(
        s.add_ao_chan("Nope", 0, 0, 0),
        Err(StreamError::DeviceNotFound {
            name: "Nope".to_string(),
            registered: vec!["Dev1".to_string(), "Dev2".to_string(), "Dev3".to_string()],
        })
    );
    assert_eq!(s.add_ao_chan("Dev2", 0, 0, 0), Err(tm("Dev2")));
    assert_eq!(s.add_do_chan("Dev1", 0, 0, false, false), Err(tm("Dev1")));
    assert_eq!(s.add_ao_chan("Dev1", 0, 1, 1), Err(StreamError::DuplicateChannel));
    assert_eq!(s.add_do_chan("Dev2", 0, 4, true, true), Err(StreamError::DuplicateChannel));
    assert_eq!(s.ao_chan_dflt_val("Dev1", 7), Err(nf("Dev1/ao7")));
    assert_eq!(
        s.dev_get_samp_rate("Nope"),
        Err(StreamError::DeviceNotFound {
            name: "Nope".to_string(),
            registered: vec!["Dev1".to_string(), "Dev2".to_string(), "Dev3".to_string()],
        })
    );
    assert_eq!(s.chan_last_instr_end_time("Dev1", "ao9"), Err(nf("Dev1/ao9")));
    assert_eq!(s.chan_clear_edit_cache("Dev2", "port0/line5"), Err(nf("Dev2/port0/line5")));
    assert!(s.get_dev("Nope").is_err());
    assert!(s.get_dev("Dev2").is_ok());
}

#[test]
fn channel_settings_read_back() {
    let mut s = two_devs();
    s.add_ao_chan("Dev1", 12, 3, 4).unwrap();
    assert_eq!(s.ao_chan_name("Dev1", 12), Ok("ao12".to_string()));
    assert_eq!(s.do_chan_name("Dev2", 0, 4), Ok("port0/line4".to_string()));
    assert_eq!(s.ao_chan_dflt_val("Dev1", 12), Ok(3));
    assert_eq!(s.ao_chan_rst_val("Dev1", 12), Ok(4));
    assert_eq!(s.do_chan_dflt_val("Dev2", 0, 4), Ok(false));
    assert_eq!(s.do_chan_rst_val("Dev2", 1, 4), Err(nf("Dev2/port1/line4")));
    assert_eq!(s.do_chan_rst_val("Dev2", 0, 4), Ok(true));
    assert_eq!(s.dev_get_samp_rate("Dev2"), Ok(10_000));
}

#[test]
fn clear_edit_cache_marks_stale() {
    let mut s = two_devs();
    s.ao_chan_add_instr("Dev1", 0, Func::Const(1), 0, Some((5, false))).unwrap();
    s.compile(Some(10)).unwrap();
    assert!(s.is_fresh_compiled());
    s.chan_clear_edit_cache("Dev1", "ao0").unwrap();
    assert!(!s.is_fresh_compiled());
    s.compile(Some(10)).unwrap();
    s.dev_clear_edit_cache("Dev2").unwrap();
    assert!(!s.is_fresh_compiled());
    s.compile(Some(10)).unwrap();
    s.clear_edit_cache();
    assert!(!s.is_fresh_compiled());
    s.compile(Some(10)).unwrap();
    s.ao_chan_add_instr("Dev1", 0, Func::Const(1), 6, Some((1, false))).unwrap();
    assert!(!s.is_fresh_compiled());
}

#[test]
fn hardware_settings_round_trip() {
    let mut s = two_devs();
    assert_eq!(s.dev_get_start_trig_in("Dev1"), Ok(None));
    s.dev_set_start_trig_in("Dev1", Some("PFI0".to_string())).unwrap();
    s.dev_set_start_trig_out("Dev1", Some("PFI1".to_string())).unwrap();
    s.dev_set_samp_clk_in("Dev2", Some("PFI2".to_string())).unwrap();
    s.dev_set_samp_clk_out("Dev2", Some("PFI3".to_string())).unwrap();
    s.dev_set_ref_clk_in("Dev2", Some("PXI_Clk10".to_string())).unwrap();
    s.dev_set_min_bufwrite_timeout("Dev1", Some(5_000_000)).unwrap();
    assert_eq!(s.dev_get_start_trig_in("Dev1"), Ok(Some("PFI0".to_string())));
    assert_eq!(s.dev_get_start_trig_out("Dev1"), Ok(Some("PFI1".to_string())));
    assert_eq!(s.dev_get_samp_clk_in("Dev2"), Ok(Some("PFI2".to_string())));
    assert_eq!(s.dev_get_samp_clk_out("Dev2"), Ok(Some("PFI3".to_string())));
    assert_eq!(s.dev_get_ref_clk_in("Dev2"), Ok(Some("PXI_Clk10".to_string())));
    assert_eq!(s.dev_get_min_bufwrite_timeout("Dev1"), Ok(Some(5_000_000)));
    assert_eq!(s.dev_get_samp_clk_in("Dev1"), Ok(None));
    assert_eq!(s.dev_set_ref_clk_in("Nope", None), Err(dnf("Nope")));
    s.dev_set_start_trig_in("Dev1", None).unwrap();
    assert_eq!(s.dev_get_start_trig_in("Dev1"), Ok(None));
}

#[test]
fn run_ordering_settings() {
    let mut s = two_devs();
    assert_eq!(s.get_starts_last(), None);
    s.set_starts_last(Some("Dev2".to_string()));
    assert_eq!(s.get_starts_last(), Some("Dev2".to_string()));
    assert_eq!(s.get_ref_clk_provider(), None);
    s.set_ref_clk_provider(Some(("Dev1".to_string(), "PXI_Trig7".to_string())));
    assert_eq!(s.get_ref_clk_provider(), Some(("Dev1".to_string(), "PXI_Trig7".to_string())));
    s.set_starts_last(None);
    assert_eq!(s.get_starts_last(), None);
}

const MS: u64 = 1_000_000;

#[test]
fn run_buffers_follow_windows() {
    let mut s = two_devs();
    s.ao_chan_add_instr("Dev1", 0, Func::Const(7), 100 * MS, Some((100 * MS, false))).unwrap();
    s.compile(None).unwrap();
    s.cfg_run(100).unwrap();
    match &s.devs[0] {
        NIDev::AO(d) => {
            assert_eq!(d.next_buf.len(), 1);
            assert_eq!(d.next_buf[0], vec![0i64; 100]);
        }
        NIDev::DO(_) => panic!("Dev1 is analog"),
    }
    match &s.devs[1] {
        NIDev::DO(d) => assert_eq!(d.next_buf[0], vec![false; 1000]),
        NIDev::AO(_) => panic!("Dev2 is digital"),
    }
    s.stream_run(true).unwrap();
    match &s.devs[0] {
        NIDev::AO(d) => {
            assert_eq!(d.cur_buf[0], vec![0i64; 100]);
            assert_eq!(d.next_buf[0], vec![7i64; 100]);
        }
        NIDev::DO(_) => panic!("Dev1 is analog"),
    }
    s.stream_run(true).unwrap();
    match &s.devs[0] {
        NIDev::AO(d) => assert_eq!(d.next_buf[0], vec![0i64; 100]),
        NIDev::DO(_) => panic!("Dev1 is analog"),
    }
}

#[test]
fn cfg_run_with_unresolved_open_instr_fails() {
    let mut s = two_devs();
    s.ao_chan_add_instr("Dev1", 0, Func::Const(7), 0, None).unwrap();
    assert_eq!(s.cfg_run(100), Err(StreamError::Value));
    assert_eq!(s.run, RunPhase::Idle);
    s.compile(Some(S)).unwrap();
    assert_eq!(s.cfg_run(100), Ok(()));
}

#[test]
fn get_dev_mut_edits_settings() {
    let mut s = two_devs();
    match s.get_dev_mut("Dev1") {
        Ok(NIDev::AO(d)) => d.hw_cfg.ref_clk_in = Some("PXI_Clk10".to_string()),
        _ => panic!("Dev1 is an analog device"),
    }
    assert_eq!(s.dev_get_ref_clk_in("Dev1"), Ok(Some("PXI_Clk10".to_string())));
    assert!(s.get_dev_mut("Nope").is_err());
}

#[test]
fn cfg_run_checks_run_ordering_devices() {
    let mut s = two_devs();
    s.set_starts_last(Some("Dev9".to_string()));
    assert_eq!(s.cfg_run(100), Err(nf("Dev9")));
    s.set_starts_last(Some("Dev2".to_string()));
    s.set_ref_clk_provider(Some(("Dev8".to_string(), "PXI_Trig7".to_string())));
    assert_eq!(s.cfg_run(100), Err(nf("Dev8")));
    assert_eq!(s.run, RunPhase::Idle);
    s.set_ref_clk_provider(Some(("Dev1".to_string(), "PXI_Trig7".to_string())));
    assert_eq!(s.cfg_run(100), Ok(()));
}

#[test]
fn freshness_follows_compiles_and_edits() {
    let mut s = StreamerWrap::new();
    assert!(!s.is_fresh_compiled());
    s.compile(None).unwrap();
    assert!(s.is_fresh_compiled());
    s.clear_edit_cache();
    assert!(!s.is_fresh_compiled());
    s.add_ao_dev("Dev1", 1000).unwrap();
    s.compile(None).unwrap();
    s.dev_clear_edit_cache("Dev1").unwrap();
    assert!(!s.is_fresh_compiled());
    s.compile(None).unwrap();
    s.add_ao_chan("Dev1", 3, 0, 0).unwrap();
    assert!(s.is_fresh_compiled());
    assert_eq!(s.ao_chan_add_instr("Dev1", 3, Func::Const(1), 0, None), Ok(()));
    assert!(!s.is_fresh_compiled());
}

#[test]
fn reset_closes_open_tail() {
    let mut s = two_devs();
    s.ao_chan_add_instr("Dev1", 0, Func::Const(2), S, None).unwrap();
    s.add_reset_instr(Some(4 * S)).unwrap();
    assert_eq!(s.chan_last_instr_end_time("Dev1", "ao0"), Ok(4 * S + 1_000_000));
    s.compile(None).unwrap();
    assert_eq!(
        s.ao_chan_calc_nsamps("Dev1", 0, 4, Some(0), Some(4 * S + 1_000_000)).unwrap(),
        vec![0, 2, 2, 2]
    );
}

#[test]
fn wrong_kind_names_the_device() {
    let s = two_devs();
    assert_eq!(s.ao_chan_dflt_val("Dev2", 0), Err(tm("Dev2")));
    assert_eq!(s.do_chan_calc_nsamps("Dev1", 0, 0, 1, None, None), Err(tm("Dev1")));
}

#[test]
fn channels_sorted_by_name() {
    let mut s = two_devs();
    s.add_ao_chan("Dev1", 2, 0, 0).unwrap();
    s.add_ao_chan("Dev1", 10, 0, 0).unwrap();
    s.add_do_chan("Dev2", 0, 10, false, false).unwrap();
    s.add_do_chan("Dev2", 0, 2, false, false).unwrap();
    match &s.devs[0] {
        NIDev::AO(d) => {
            let names: Vec<String> = d.chans.iter().map(|c| c.name.clone()).collect();
            assert_eq!(names, vec!["ao0", "ao10", "ao2"]);
        }
        NIDev::DO(_) => panic!("Dev1 is analog"),
    }
    match &s.devs[1] {
        NIDev::DO(d) => {
            let names: Vec<String> = d.chans.iter().map(|c| c.name.clone()).collect();
            assert_eq!(names, vec!["port0/line10", "port0/line2", "port0/line4"]);
        }
        NIDev::AO(_) => panic!("Dev2 is digital"),
    }
}
