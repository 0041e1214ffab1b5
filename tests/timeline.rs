use ni_streamer::channel::{Channel, Func};
use ni_streamer::error::StreamError;

const S: u64 = 1_000_000_000;

fn ao_chan() -> Channel<i64> {
    Channel::new((0, 0), "ao0".to_string(), 1000, 0, -1)
}

#[test]
fn const_instr_sampled_inside_and_outside() {
    let mut c = ao_chan();
    c.add_instr(Func::Const(5_000_000), 0, Some((10 * S, false))).unwrap();
    assert_eq!(c.calc_nsamps(3, Some(0), Some(10 * S)).unwrap(), vec![5_000_000, 5_000_000, 5_000_000]);
    assert_eq!(c.calc_nsamps(2, Some(10 * S), Some(20 * S)).unwrap(), vec![0, 0]);
}

#[test]
fn open_instr_resolves_to_stop_time() {
    let mut c = ao_chan();
    c.add_instr(Func::Const(1), 2 * S, None).unwrap();
    assert_eq!(c.last_instr_end_time(), 2 * S);
    c.compile(8 * S).unwrap();
    assert_eq!(c.last_instr_end_time(), 8 * S);
    assert_eq!(c.calc_nsamps(4, Some(0), Some(8 * S)).unwrap(), vec![0, 1, 1, 1]);
}

#[test]
fn compile_before_open_start_fails() {
    let mut c = ao_chan();
    c.add_instr(Func::Const(1), 2 * S, None).unwrap();
    assert_eq!(c.compile(S), Err(StreamError::Compile { stop: S }));
    assert!(!c.is_fresh_compiled());
}

#[test]
fn overlapping_instr_is_refused() {
    let mut c = ao_chan();
    c.add_instr(Func::Const(1), 10, Some((10, false))).unwrap();
    assert_eq!(c.add_instr(Func::Const(2), 15, Some((10, false))), Err(StreamError::Overlap { start: 10, end: 20 }));
    assert_eq!(c.add_instr(Func::Const(2), 5, Some((6, false))), Err(StreamError::Overlap { start: 10, end: 20 }));
    assert_eq!(c.add_instr(Func::Const(2), 10, Some((1, false))), Err(StreamError::Overlap { start: 10, end: 20 }));
    c.add_instr(Func::Const(3), 20, Some((5, false))).unwrap();
    c.add_instr(Func::Const(4), 0, Some((10, false))).unwrap();
    assert_eq!(c.instrs.len(), 3);
    assert_eq!(c.instrs[0].start, 0);
    assert_eq!(c.instrs[1].start, 10);
    assert_eq!(c.instrs[2].start, 20);
}

#[test]
fn instr_after_pending_open_is_refused() {
    let mut c = ao_chan();
    c.add_instr(Func::Const(1), 10, None).unwrap();
    assert_eq!(c.add_instr(Func::Const(2), 20, Some((5, false))), Err(StreamError::PendingOpenInstr));
    assert_eq!(c.add_instr(Func::Const(2), 10, None), Err(StreamError::PendingOpenInstr));
    c.add_instr(Func::Const(3), 0, Some((10, false))).unwrap();
    assert_eq!(c.instrs.len(), 2);
}

#[test]
fn zero_duration_is_accepted() {
    let mut c = ao_chan();
    c.add_instr(Func::Const(1), 10, Some((0, false))).unwrap();
    c.add_instr(Func::Const(2), 10, Some((5, false))).unwrap();
    assert_eq!(c.add_instr(Func::Const(3), 10, Some((5, false))), Err(StreamError::Overlap { start: 10, end: 15 }));
    c.add_instr(Func::Const(4), 15, Some((0, false))).unwrap();
    assert_eq!(c.instrs.len(), 3);
    assert_eq!(c.instrs[0].dur, Some((0, false)));
    assert_eq!(c.instrs[1].dur, Some((5, false)));
    assert_eq!(c.last_instr_end_time(), 15);
    assert_eq!(c.calc_nsamps(2, Some(10), Some(20)).unwrap(), vec![2, 0]);
}

#[test]
fn empty_instr_goes_before_one_at_same_start() {
    let mut c = ao_chan();
    c.add_instr(Func::Const(2), 10, Some((5, false))).unwrap();
    c.add_instr(Func::Const(1), 10, Some((0, false))).unwrap();
    assert_eq!(c.instrs[0].dur, Some((0, false)));
    assert_eq!(c.instrs[1].start, 10);
}

#[test]
fn open_instr_before_fixed_one_ends_at_its_start() {
    let mut c = ao_chan();
    c.add_instr(Func::Const(9), 10, Some((10, false))).unwrap();
    c.add_instr(Func::Const(4), 0, None).unwrap();
    assert_eq!(c.instrs.len(), 2);
    assert_eq!(c.calc_nsamps(4, Some(0), Some(20)), Err(StreamError::Value));
    c.compile(20).unwrap();
    assert_eq!(c.calc_nsamps(4, Some(0), Some(20)).unwrap(), vec![4, 4, 9, 9]);
}

#[test]
fn calc_nsamps_argument_errors() {
    let mut c = ao_chan();
    c.add_instr(Func::Const(1), 0, Some((10, false))).unwrap();
    assert_eq!(c.calc_nsamps(0, None, None), Err(StreamError::Value));
    assert_eq!(c.calc_nsamps(2, Some(8), Some(4)), Err(StreamError::Value));
    c.add_instr(Func::Const(2), 20, None).unwrap();
    assert_eq!(c.calc_nsamps(2, Some(0), Some(30)), Err(StreamError::Value));
    assert_eq!(c.calc_nsamps(2, Some(0), Some(20)).unwrap(), vec![1, 0]);
    c.compile(40).unwrap();
    assert_eq!(c.calc_nsamps(4, Some(0), Some(40)).unwrap(), vec![1, 0, 2, 2]);
}

#[test]
fn default_window_ends_at_last_instr() {
    let mut c = ao_chan();
    c.add_instr(Func::Const(7), 5, Some((5, false))).unwrap();
    assert_eq!(c.calc_nsamps(2, None, None).unwrap(), vec![0, 7]);
}

#[test]
fn square_wave_follows_elapsed_time() {
    let mut c: Channel<bool> = Channel::new((0, 1), "port0/line1".to_string(), 1000, false, false);
    c.add_instr(Func::Square { hi: true, lo: false, half_period: 10 }, 100, Some((40, false))).unwrap();
    assert_eq!(
        c.calc_nsamps(8, Some(100), Some(140)).unwrap(),
        vec![true, true, false, false, true, true, false, false]
    );
}

#[test]
fn keep_val_runs_until_next_instr() {
    let mut c = ao_chan();
    c.add_instr(Func::Square { hi: 1, lo: 2, half_period: 10 }, 0, Some((15, true))).unwrap();
    c.add_instr(Func::Const(9), 40, Some((10, false))).unwrap();
    // the instruction runs on until the next one starts
    assert_eq!(c.calc_nsamps(5, Some(0), Some(50)).unwrap(), vec![1, 2, 1, 2, 9]);
}

#[test]
fn compile_twice_gives_same_timeline() {
    let mut c = ao_chan();
    c.add_instr(Func::Const(3), 0, Some((4, true))).unwrap();
    c.add_instr(Func::Const(5), 10, None).unwrap();
    c.compile(30).unwrap();
    let first = c.calc_nsamps(6, Some(0), Some(30)).unwrap();
    let end1 = c.last_instr_end_time();
    c.compile(30).unwrap();
    assert_eq!(c.calc_nsamps(6, Some(0), Some(30)).unwrap(), first);
    assert_eq!(c.last_instr_end_time(), end1);
    assert_eq!(first, vec![3, 3, 5, 5, 5, 5]);
}

#[test]
fn clear_edit_cache_keeps_instrs() {
    let mut c = ao_chan();
    c.add_instr(Func::Const(3), 0, None).unwrap();
    c.compile(30).unwrap();
    assert!(c.is_fresh_compiled());
    assert_eq!(c.last_instr_end_time(), 30);
    c.clear_edit_cache();
    assert!(!c.is_fresh_compiled());
    assert_eq!(c.instrs.len(), 1);
    assert_eq!(c.last_instr_end_time(), 0);
}

#[test]
fn accepted_instrs_never_overlap() {
    let mut c = ao_chan();
    let tries: [(u64, Option<(u64, bool)>); 7] = [
        (50, Some((20, false))),
        (60, Some((5, false))),
        (0, Some((10, true))),
        (10, Some((40, false))),
        (5, Some((3, false))),
        (70, None),
        (90, Some((1, false))),
    ];
    for (t, d) in tries.iter() {
        let _ = c.add_instr(Func::Const(1), *t, *d);
    }
    c.compile(100).unwrap();
    for i in 0..c.instrs.len() {
        for j in (i + 1)..c.instrs.len() {
            let a = &c.instrs[i];
            let b = &c.instrs[j];
            let a_end = match a.dur {
                Some((d, false)) => a.start + d,
                _ => c.instrs[i + 1].start,
            };
            assert!(a.start < b.start);
            assert!(a_end <= b.start);
        }
    }
    assert_eq!(c.instrs.len(), 4);
}
