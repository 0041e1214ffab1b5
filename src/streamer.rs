//! The streamer: named devices of both kinds behind one flat interface,
//! global compilation against a common stop time, and the run lifecycle.
use vstd::prelude::*;

use crate::channel::{Channel, Func, Instr};
use crate::device::{Device, HwCfg, NS_PER_S};
use crate::error::{not_found, StreamError};
use crate::names::{ao_name, ao_name_text, chan_path, chan_path_text, do_name, do_name_text};
use crate::nidev::{
    clone_hw_cfg, clone_opt_string, lemma_max_dev_end_bounds, max_dev_end, NIDev,
};

verus! {

/// Samples per buffer of `buf_ms` milliseconds at `samp_rate`, at least one.
pub open spec fn buf_len(samp_rate: u64, buf_ms: u64) -> int {
    let n = (buf_ms as int * samp_rate as int) / 1000;
    if n == 0 {
        1
    } else {
        n
    }
}

/// Nanoseconds per millisecond.
pub const NS_PER_MS: u64 = 1_000_000;

/// Why a channel lookup fails.
pub enum LookupFail {
    NoDevice,
    NoChannel,
    WrongKind,
}

/// `r` is the failure that a lookup of channel `chan` on device `dev`
/// reports for `f`.
pub open spec fn reports<T>(
    r: Result<T, StreamError>,
    f: LookupFail,
    dev: Seq<char>,
    chan: Seq<char>,
    registered: Seq<Seq<char>>,
) -> bool {
    match f {
        LookupFail::NoDevice => dev_missing(r, dev, registered),
        LookupFail::NoChannel => not_found(r, chan_path(dev, chan)),
        LookupFail::WrongKind => r matches Err(StreamError::TypeMismatch { name: n }) && n@ == dev,
    }
}

/// `r` is the failure that no device named `name` exists, listing the
/// `registered` device names in order.
pub open spec fn dev_missing<T>(r: Result<T, StreamError>, name: Seq<char>, registered: Seq<Seq<char>>) -> bool {
    r matches Err(StreamError::DeviceNotFound { name: n, registered: v }) && n@ == name && v@.len()
        == registered.len() && forall|i: int| 0 <= i < v@.len() ==> (#[trigger] v@[i])@ == registered[i]
}

/// The stages of a run.
#[derive(Clone, Copy, Debug, PartialEq, Eq, Structural)]
pub enum RunPhase {
    Idle,
    Configured,
    Running,
}

/// The streamer: its devices by name, the run-ordering settings, and the
/// state of the run.
pub struct StreamerWrap {
    pub devs: Vec<NIDev>,
    pub starts_last: Option<String>,
    pub ref_clk_provider: Option<(String, String)>,
    /// The stop time of the last successful compile.
    pub total_run_time: u64,
    pub run: RunPhase,
    /// Buffer length of the configured run, in milliseconds.
    pub bufsize_ms: u64,
    /// Number of buffers handed to the hardware in the current run.
    pub chunk: u64,
    /// A compile succeeded and nothing was edited or cleared since.
    pub fresh: bool,
}

impl StreamerWrap {
    /// Every device is well formed and no two share a name.
    pub open spec fn wf(&self) -> bool {
        &&& forall|i: int| 0 <= i < self.devs@.len() ==> (#[trigger] self.devs@[i]).wf()
        &&& forall|i: int, j: int|
            0 <= i < j < self.devs@.len() ==> (#[trigger] self.devs@[i]).spec_name()
                != (#[trigger] self.devs@[j]).spec_name()
    }

    pub open spec fn has_dev(&self, name: Seq<char>) -> bool {
        exists|i: int| 0 <= i < self.devs@.len() && (#[trigger] self.devs@[i]).spec_name() == name
    }

    pub open spec fn spec_last_end(&self) -> int {
        max_dev_end(self.devs@)
    }

    pub open spec fn spec_fresh(&self) -> bool {
        self.fresh
    }

    /// Nothing but the run state and the devices' next buffers differs
    /// between `self` and `new`.
    pub open spec fn same_devices(&self, new: Self) -> bool {
        &&& new.devs@.len() == self.devs@.len()
        &&& forall|i: int|
            0 <= i < self.devs@.len() ==> self.devs@[i].same_but_buf(#[trigger] new.devs@[i])
        &&& new.starts_last == self.starts_last
        &&& new.ref_clk_provider == self.ref_clk_provider
        &&& new.total_run_time == self.total_run_time
    }

    /// Start of buffer window `k` of a run with buffers of `buf_ms`.
    pub open spec fn window_start(buf_ms: u64, k: int) -> int {
        k * (buf_ms * NS_PER_MS)
    }

    /// Buffer window `k` lies within the time range and every channel can
    /// be sampled over it.
    pub open spec fn window_ok(&self, buf_ms: u64, k: int) -> bool {
        let t0 = Self::window_start(buf_ms, k);
        let t1 = Self::window_start(buf_ms, k + 1);
        &&& t1 <= u64::MAX
        &&& forall|i: int|
            0 <= i < self.devs@.len() ==> buf_len((#[trigger] self.devs@[i]).spec_samp_rate(), buf_ms)
                <= usize::MAX && !self.devs@[i].spec_window_fails(
                buf_len(self.devs@[i].spec_samp_rate(), buf_ms) as usize,
                t0 as u64,
                t1 as u64,
            )
    }

    /// Every device's buffer last handed to the hardware holds window `k`.
    pub open spec fn handed_filled(&self, buf_ms: u64, k: int) -> bool {
        forall|i: int|
            0 <= i < self.devs@.len() ==> (#[trigger] self.devs@[i]).spec_cur_holds(
                buf_len(self.devs@[i].spec_samp_rate(), buf_ms) as usize,
                Self::window_start(buf_ms, k) as u64,
                Self::window_start(buf_ms, k + 1) as u64,
            )
    }

    /// Every device's next buffer holds buffer window `k`.
    pub open spec fn window_filled(&self, buf_ms: u64, k: int) -> bool {
        forall|i: int|
            0 <= i < self.devs@.len() ==> (#[trigger] self.devs@[i]).spec_buf_holds(
                buf_len(self.devs@[i].spec_samp_rate(), buf_ms) as usize,
                Self::window_start(buf_ms, k) as u64,
                Self::window_start(buf_ms, k + 1) as u64,
            )
    }

    pub fn new() -> (r: Self)
        ensures
            r.wf(),
            r.devs@.len() == 0,
            !r.fresh,
            r.starts_last.is_none(),
            r.ref_clk_provider.is_none(),
            r.run == RunPhase::Idle,
    {
        StreamerWrap {
            devs: Vec::new(),
            starts_last: None,
            ref_clk_provider: None,
            total_run_time: 0,
            run: RunPhase::Idle,
            bufsize_ms: 0,
            chunk: 0,
            fresh: false,
        }
    }

    /// Position of the device named `name`, if one is registered.
    fn find_dev(&self, name: &str) -> (r: Option<usize>)
        ensures
            r matches Some(i) ==> i < self.devs@.len() && self.devs@[i as int].spec_name() == name@,
            r.is_none() <==> !self.has_dev(name@),
    {
        let target = name.to_owned();
        let n = self.devs.len();
        let mut i: usize = 0;
        while i < n
            invariant
                n == self.devs@.len(),
                target@ == name@,
                i <= n,
                forall|j: int| 0 <= j < i ==> (#[trigger] self.devs@[j]).spec_name() != name@,
            decreases n - i,
        {
            if *self.devs[i].name() == target {
                return Some(i);
            }
            i = i + 1;
        }
        None
    }

    /// The names of the registered devices, in order.
    pub open spec fn dev_names(&self) -> Seq<Seq<char>> {
        Seq::new(self.devs@.len(), |i: int| self.devs@[i].spec_name())
    }

    fn dev_name_list(&self) -> (r: Vec<String>)
        ensures
            r@.len() == self.dev_names().len(),
            forall|i: int| 0 <= i < r@.len() ==> (#[trigger] r@[i])@ == self.dev_names()[i],
    {
        let mut v: Vec<String> = Vec::new();
        let n = self.devs.len();
        let mut i: usize = 0;
        while i < n
            invariant
                n == self.devs@.len(),
                i <= n,
                v@.len() == i,
                forall|j: int| 0 <= j < i ==> (#[trigger] v@[j])@ == self.devs@[j].spec_name(),
            decreases n - i,
        {
            v.push(self.devs[i].name().clone());
            i = i + 1;
        }
        v
    }

    /// Fails with `DeviceNotFound`, listing the registered devices, unless a
    /// device named `name` is registered.
    fn assert_has_dev(&self, name: &str) -> (r: Result<usize, StreamError>)
        ensures
            r matches Ok(i) ==> i < self.devs@.len() && self.devs@[i as int].spec_name() == name@,
            r.is_err() <==> !self.has_dev(name@),
            r.is_err() ==> dev_missing(r, name@, self.dev_names()),
    {
        match self.find_dev(name) {
            Some(i) => Ok(i),
            None => Err(StreamError::DeviceNotFound { name: name.to_owned(), registered: self.dev_name_list() }),
        }
    }

    pub fn get_dev(&self, name: &str) -> (r: Result<&NIDev, StreamError>)
        ensures
            r.is_err() <==> !self.has_dev(name@),
            r.is_err() ==> dev_missing(r, name@, self.dev_names()),
            r matches Ok(d) ==> d.spec_name() == name@ && exists|i: int|
                0 <= i < self.devs@.len() && self.devs@[i] == *d,
    {
        let i = self.assert_has_dev(name)?;
        Ok(&self.devs[i])
    }

    pub fn get_dev_mut(&mut self, name: &str) -> (r: Result<&mut NIDev, StreamError>)
        ensures
            r.is_err() <==> !old(self).has_dev(name@),
            r.is_err() ==> dev_missing(r, name@, old(self).dev_names()),
            r matches Ok(d) ==> d.spec_name() == name@ && exists|i: int|
                0 <= i < old(self).devs@.len() && old(self).devs@[i] == *d,
    {
        let i = self.assert_has_dev(name)?;
        Ok(&mut self.devs[i])
    }

    fn add_dev(&mut self, dev: NIDev) -> (r: Result<(), StreamError>)
        requires
            old(self).wf(),
            dev.wf(),
        ensures
            final(self).wf(),
            r.is_err() <==> old(self).has_dev(dev.spec_name()),
            r.is_err() ==> r == Err::<(), StreamError>(StreamError::DuplicateDevice) && *final(self)
                == *old(self),
            r.is_ok() ==> final(self).devs@ == old(self).devs@.push(dev),
            final(self).starts_last == old(self).starts_last,
            final(self).ref_clk_provider == old(self).ref_clk_provider,
            final(self).run == old(self).run,
            final(self).total_run_time == old(self).total_run_time,
            final(self).bufsize_ms == old(self).bufsize_ms,
            final(self).chunk == old(self).chunk,
            final(self).fresh == old(self).fresh,
    {
        let n = self.devs.len();
        let mut i: usize = 0;
        while i < n
            invariant
                *self == *old(self),
                old(self).wf(),
                n == self.devs@.len(),
                i <= n,
                forall|j: int| 0 <= j < i ==> (#[trigger] self.devs@[j]).spec_name() != dev.spec_name(),
            decreases n - i,
        {
            if *self.devs[i].name() == *dev.name() {
                return Err(StreamError::DuplicateDevice);
            }
            i = i + 1;
        }
        self.devs.push(dev);
        proof {
            let s = self.devs@;
            assert forall|a: int, b: int| 0 <= a < b < s.len() implies (#[trigger] s[a]).spec_name()
                != (#[trigger] s[b]).spec_name() by {
                if b < n {
                    assert(s[a] == old(self).devs@[a] && s[b] == old(self).devs@[b]);
                } else {
                    assert(s[a] == old(self).devs@[a]);
                }
            }
            assert forall|a: int| 0 <= a < s.len() implies (#[trigger] s[a]).wf() by {
                if a < n {
                    assert(s[a] == old(self).devs@[a]);
                }
            }
        }
        Ok(())
    }

    /// Registers an analog output device; fails when the name is already
    /// in use.
    pub fn add_ao_dev(&mut self, name: &str, samp_rate: u64) -> (r: Result<(), StreamError>)
        requires
            old(self).wf(),
        ensures
            final(self).wf(),
            old(self).has_dev(name@) ==> r == Err::<(), StreamError>(StreamError::DuplicateDevice),
            r.is_ok() <==> !old(self).has_dev(name@),
            r.is_err() ==> *final(self) == *old(self),
            final(self).starts_last == old(self).starts_last,
            final(self).ref_clk_provider == old(self).ref_clk_provider,
            final(self).run == old(self).run,
            final(self).total_run_time == old(self).total_run_time,
            final(self).bufsize_ms == old(self).bufsize_ms,
            final(self).chunk == old(self).chunk,
            final(self).fresh == old(self).fresh,
            r.is_ok() ==> final(self).devs@.len() == old(self).devs@.len() + 1 && final(self).devs@.drop_last() == old(self).devs@ && (final(self).devs@.last() matches NIDev::AO(
                d,
            ) && d.name@ == name@ && d.samp_rate == samp_rate && d.chans@.len() == 0
                && d.hw_cfg.is_unset()),
    {
        let r = self.add_dev(NIDev::AO(Device::new(name, samp_rate)));
        proof {
            if r.is_ok() {
                assert(self.devs@.drop_last() =~= old(self).devs@);
            }
        }
        r
    }

    /// Registers a digital output device; fails when the name is already
    /// in use.
    pub fn add_do_dev(&mut self, name: &str, samp_rate: u64) -> (r: Result<(), StreamError>)
        requires
            old(self).wf(),
        ensures
            final(self).wf(),
            old(self).has_dev(name@) ==> r == Err::<(), StreamError>(StreamError::DuplicateDevice),
            r.is_ok() <==> !old(self).has_dev(name@),
            r.is_err() ==> *final(self) == *old(self),
            final(self).starts_last == old(self).starts_last,
            final(self).ref_clk_provider == old(self).ref_clk_provider,
            final(self).run == old(self).run,
            final(self).total_run_time == old(self).total_run_time,
            final(self).bufsize_ms == old(self).bufsize_ms,
            final(self).chunk == old(self).chunk,
            final(self).fresh == old(self).fresh,
            r.is_ok() ==> final(self).devs@.len() == old(self).devs@.len() + 1 && final(self).devs@.drop_last() == old(self).devs@ && (final(self).devs@.last() matches NIDev::DO(
                d,
            ) && d.name@ == name@ && d.samp_rate == samp_rate && d.chans@.len() == 0
                && d.hw_cfg.is_unset()),
    {
        let r = self.add_dev(NIDev::DO(Device::new(name, samp_rate)));
        proof {
            if r.is_ok() {
                assert(self.devs@.drop_last() =~= old(self).devs@);
            }
        }
        r
    }

    /// The latest end of a last instruction over all devices; 0 without any.
    pub fn last_instr_end_time(&self) -> (r: u64)
        requires
            self.wf(),
        ensures
            r == self.spec_last_end(),
    {
        let n = self.devs.len();
        let mut best: u64 = 0;
        let mut i: usize = 0;
        while i < n
            invariant
                self.wf(),
                n == self.devs@.len(),
                i <= n,
                best == max_dev_end(self.devs@.subrange(0, i as int)),
            decreases n - i,
        {
            let e = self.devs[i].last_instr_end_time();
            proof {
                assert(self.devs@.subrange(0, i + 1).drop_last() == self.devs@.subrange(
                    0,
                    i as int,
                ));
            }
            if e > best {
                best = e;
            }
            i = i + 1;
        }
        proof {
            assert(self.devs@.subrange(0, n as int) == self.devs@);
        }
        best
    }

    pub fn total_run_time(&self) -> (r: u64)
        ensures
            r == self.total_run_time,
    {
        self.total_run_time
    }

    /// The stop time a compile uses: the one given, else the latest end.
    pub open spec fn stop_for(&self, stop_time: Option<u64>) -> u64 {
        match stop_time {
            Some(s) => s,
            None => self.spec_last_end() as u64,
        }
    }

    /// Compiles every channel of every device against one common stop time
    /// (by default the latest end) and returns it as the total run time;
    /// changes nothing when some channel cannot be compiled.
    pub fn compile(&mut self, stop_time: Option<u64>) -> (r: Result<u64, StreamError>)
        requires
            old(self).wf(),
        ensures
            final(self).wf(),
            r.is_ok() <==> forall|i: int|
                0 <= i < old(self).devs@.len() ==> (#[trigger] old(self).devs@[i]).spec_compilable(
                    old(self).stop_for(stop_time),
                ),
            r.is_err() ==> r == Err::<u64, StreamError>(
                StreamError::Compile { stop: old(self).stop_for(stop_time) },
            ) && *final(self) == *old(self),
            r.is_ok() ==> {
                let stop = old(self).stop_for(stop_time);
                &&& r == Ok::<u64, StreamError>(stop)
                &&& final(self).total_run_time == stop
                &&& final(self).devs@.len() == old(self).devs@.len()
                &&& forall|i: int|
                    0 <= i < old(self).devs@.len() ==> old(self).devs@[i].compiled_into(
                        #[trigger] final(self).devs@[i],
                        stop,
                    )
                &&& final(self).starts_last == old(self).starts_last
                &&& final(self).ref_clk_provider == old(self).ref_clk_provider
                &&& final(self).run == old(self).run
                &&& final(self).bufsize_ms == old(self).bufsize_ms
                &&& final(self).chunk == old(self).chunk
                &&& final(self).fresh
            },
    {
        let stop = match stop_time {
            Some(s) => s,
            None => self.last_instr_end_time(),
        };
        let n = self.devs.len();
        let mut i: usize = 0;
        while i < n
            invariant
                self.wf(),
                *self == *old(self),
                stop == old(self).stop_for(stop_time),
                n == self.devs@.len(),
                i <= n,
                forall|j: int| 0 <= j < i ==> (#[trigger] self.devs@[j]).spec_compilable(stop),
            decreases n - i,
        {
            if !self.devs[i].can_compile(stop) {
                return Err(StreamError::Compile { stop });
            }
            i = i + 1;
        }
        let mut i: usize = 0;
        while i < n
            invariant
                self.wf(),
                old(self).wf(),
                n == self.devs@.len(),
                n == old(self).devs@.len(),
                i <= n,
                self.starts_last == old(self).starts_last,
                self.ref_clk_provider == old(self).ref_clk_provider,
                self.run == old(self).run,
                self.bufsize_ms == old(self).bufsize_ms,
                self.chunk == old(self).chunk,
                stop == old(self).stop_for(stop_time),
                forall|j: int| 0 <= j < n ==> (#[trigger] old(self).devs@[j]).spec_compilable(stop),
                forall|j: int|
                    0 <= j < i ==> old(self).devs@[j].compiled_into(#[trigger] self.devs@[j], stop),
                forall|j: int| i <= j < n ==> #[trigger] self.devs@[j] == old(self).devs@[j],
            decreases n - i,
        {
            self.devs[i].compile(stop);
            proof {
                let s = self.devs@;
                assert forall|a: int, b: int| 0 <= a < b < s.len() implies (#[trigger] s[a]).spec_name()
                    != (#[trigger] s[b]).spec_name() by {
                    assert(old(self).devs@[a].spec_name() != old(self).devs@[b].spec_name());
                }
            }
            i = i + 1;
        }
        self.total_run_time = stop;
        self.fresh = true;
        Ok(stop)
    }

    /// True iff a compile succeeded and no instruction was added and no
    /// compiled state cleared since.
    pub fn is_fresh_compiled(&self) -> (r: bool)
        ensures
            r == self.fresh,
    {
        self.fresh
    }

    /// Discards the compiled state of every channel.
    pub fn clear_edit_cache(&mut self)
        requires
            old(self).wf(),
        ensures
            final(self).wf(),
            final(self).devs@.len() == old(self).devs@.len(),
            forall|i: int|
                0 <= i < old(self).devs@.len() ==> old(self).devs@[i].cleared_into(
                    #[trigger] final(self).devs@[i],
                ),
            final(self).run == old(self).run,
            !final(self).fresh,
            final(self).starts_last == old(self).starts_last,
            final(self).ref_clk_provider == old(self).ref_clk_provider,
            final(self).total_run_time == old(self).total_run_time,
            final(self).bufsize_ms == old(self).bufsize_ms,
            final(self).chunk == old(self).chunk,
    {
        let n = self.devs.len();
        let mut i: usize = 0;
        while i < n
            invariant
                self.wf(),
                old(self).wf(),
                n == self.devs@.len(),
                n == old(self).devs@.len(),
                i <= n,
                self.run == old(self).run,
                self.starts_last == old(self).starts_last,
                self.ref_clk_provider == old(self).ref_clk_provider,
                self.total_run_time == old(self).total_run_time,
                self.bufsize_ms == old(self).bufsize_ms,
                self.chunk == old(self).chunk,
                self.fresh == old(self).fresh,
                forall|j: int|
                    0 <= j < i ==> old(self).devs@[j].cleared_into(#[trigger] self.devs@[j]),
                forall|j: int| i <= j < n ==> #[trigger] self.devs@[j] == old(self).devs@[j],
            decreases n - i,
        {
            self.devs[i].clear_edit_cache();
            proof {
                let s = self.devs@;
                assert forall|a: int, b: int| 0 <= a < b < s.len() implies (#[trigger] s[a]).spec_name()
                    != (#[trigger] s[b]).spec_name() by {
                    assert(old(self).devs@[a].spec_name() != old(self).devs@[b].spec_name());
                }
            }
            i = i + 1;
        }
        self.fresh = false;
    }

    /// The reset time used: the one given, else the latest end.
    pub open spec fn reset_for(&self, reset_time: Option<u64>) -> u64 {
        match reset_time {
            Some(t) => t,
            None => self.spec_last_end() as u64,
        }
    }

    /// Appends to every channel in which no instruction starts at or after
    /// the reset time (by default the latest end) an instruction of one
    /// sample period there driving its reset value; an open-ended last
    /// instruction then ends at the reset time. Fails when the reset time lies
    /// before the end of some instruction, or leaves no room for one second
    /// after it.
    pub fn add_reset_instr(&mut self, reset_time: Option<u64>) -> (r: Result<(), StreamError>)
        requires
            old(self).wf(),
        ensures
            final(self).wf(),
            r.is_ok() <==> (old(self).spec_last_end() <= old(self).reset_for(reset_time)
                && old(self).reset_for(reset_time) <= u64::MAX - NS_PER_S),
            r.is_err() ==> r == Err::<(), StreamError>(
                StreamError::ResetTime { time: old(self).reset_for(reset_time) },
            ) && *final(self) == *old(self),
            r.is_ok() ==> final(self).devs@.len() == old(self).devs@.len() && forall|i: int|
                0 <= i < old(self).devs@.len() ==> old(self).devs@[i].reset_into(
                    #[trigger] final(self).devs@[i],
                    old(self).reset_for(reset_time),
                ),
            r.is_ok() ==> !final(self).fresh,
            final(self).run == old(self).run,
            final(self).starts_last == old(self).starts_last,
            final(self).ref_clk_provider == old(self).ref_clk_provider,
            final(self).total_run_time == old(self).total_run_time,
            final(self).bufsize_ms == old(self).bufsize_ms,
            final(self).chunk == old(self).chunk,
    {
        let last = self.last_instr_end_time();
        let reset = match reset_time {
            Some(t) => t,
            None => last,
        };
        if reset < last || reset > u64::MAX - NS_PER_S {
            return Err(StreamError::ResetTime { time: reset });
        }
        proof {
            lemma_max_dev_end_bounds(self.devs@);
        }
        let n = self.devs.len();
        let mut i: usize = 0;
        while i < n
            invariant
                self.wf(),
                old(self).wf(),
                n == self.devs@.len(),
                n == old(self).devs@.len(),
                i <= n,
                reset + NS_PER_S <= u64::MAX,
                self.run == old(self).run,
                self.starts_last == old(self).starts_last,
                self.ref_clk_provider == old(self).ref_clk_provider,
                self.total_run_time == old(self).total_run_time,
                self.bufsize_ms == old(self).bufsize_ms,
                self.chunk == old(self).chunk,
                self.fresh == old(self).fresh,

                forall|j: int| 0 <= j < n ==> (#[trigger] old(self).devs@[j]).spec_last_end() <= reset,
                forall|j: int|
                    0 <= j < i ==> old(self).devs@[j].reset_into(#[trigger] self.devs@[j], reset),
                forall|j: int| i <= j < n ==> #[trigger] self.devs@[j] == old(self).devs@[j],
            decreases n - i,
        {
            self.devs[i].add_reset_instr(reset);
            proof {
                let s = self.devs@;
                assert forall|a: int, b: int| 0 <= a < b < s.len() implies (#[trigger] s[a]).spec_name()
                    != (#[trigger] s[b]).spec_name() by {
                    assert(old(self).devs@[a].spec_name() != old(self).devs@[b].spec_name());
                }
            }
            i = i + 1;
        }
        self.fresh = false;
        Ok(())
    }

    /// The devices named by the run-ordering settings are registered.
    pub open spec fn refs_known(&self) -> bool {
        &&& (self.starts_last matches Some(n) ==> self.has_dev(n@))
        &&& (self.ref_clk_provider matches Some((n, _)) ==> self.has_dev(n@))
    }

    /// Computes buffer window `k` for every device.
    fn fill_window(&mut self, buf_ms: u64, k: u64) -> (r: Result<(), StreamError>)
        requires
            old(self).wf(),
        ensures
            final(self).wf(),
            old(self).same_devices(*final(self)),
            forall|i: int|
                0 <= i < old(self).devs@.len() ==> old(self).devs@[i].same_cur(#[trigger] final(self).devs@[i]),
            final(self).fresh == old(self).fresh,
            final(self).run == old(self).run,
            final(self).bufsize_ms == old(self).bufsize_ms,
            final(self).chunk == old(self).chunk,
            r.is_ok() <==> old(self).window_ok(buf_ms, k as int),
            r.is_err() ==> r == Err::<(), StreamError>(StreamError::Value),
            r.is_ok() ==> final(self).window_filled(buf_ms, k as int),
    {
        let w: u128 = (buf_ms as u128) * (NS_PER_MS as u128);
        proof {
            assert(Self::window_start(buf_ms, k + 1) == (k + 1) * w) by (nonlinear_arith)
                requires
                    w == buf_ms * NS_PER_MS,
            ;
            assert((k + 1) * w >= w) by (nonlinear_arith)
                requires
                    w >= 0,
                    k >= 0,
            ;
        }
        if w > u64::MAX as u128 {
            return Err(StreamError::Value);
        }
        proof {
            assert((k as int) * (w as int) <= u128::MAX - w) by (nonlinear_arith)
                requires
                    k < 0x1_0000_0000_0000_0000int,
                    w < 0x1_0000_0000_0000_0000int,
            ;
        }
        let t0_wide: u128 = (k as u128) * w;
        let t1_wide: u128 = t0_wide + w;
        proof {
            assert(Self::window_start(buf_ms, k as int) == k * w) by (nonlinear_arith)
                requires
                    w == buf_ms * NS_PER_MS,
            ;
            assert(t1_wide == (k + 1) * w) by (nonlinear_arith)
                requires
                    t1_wide == k * w + w,
            ;
        }
        if t1_wide > u64::MAX as u128 {
            return Err(StreamError::Value);
        }
        let t0 = t0_wide as u64;
        let t1 = t1_wide as u64;
        let n_devs = self.devs.len();
        let mut i: usize = 0;
        while i < n_devs
            invariant
                self.wf(),
                old(self).wf(),
                n_devs == self.devs@.len(),
                n_devs == old(self).devs@.len(),
                i <= n_devs,
                t0 == Self::window_start(buf_ms, k as int),
                t1 == Self::window_start(buf_ms, k + 1),
                self.starts_last == old(self).starts_last,
                self.ref_clk_provider == old(self).ref_clk_provider,
                self.total_run_time == old(self).total_run_time,
                self.run == old(self).run,
                self.bufsize_ms == old(self).bufsize_ms,
                self.chunk == old(self).chunk,
                self.fresh == old(self).fresh,
                forall|j: int|
                    0 <= j < n_devs ==> old(self).devs@[j].same_but_buf(#[trigger] self.devs@[j]),
                forall|j: int|
                    0 <= j < n_devs ==> old(self).devs@[j].same_cur(#[trigger] self.devs@[j]),
                forall|j: int|
                    0 <= j < i ==> buf_len((#[trigger] old(self).devs@[j]).spec_samp_rate(), buf_ms)
                        <= usize::MAX && !old(self).devs@[j].spec_window_fails(
                        buf_len(old(self).devs@[j].spec_samp_rate(), buf_ms) as usize,
                        t0,
                        t1,
                    ),
                forall|j: int|
                    0 <= j < i ==> (#[trigger] self.devs@[j]).spec_buf_holds(
                        buf_len(self.devs@[j].spec_samp_rate(), buf_ms) as usize,
                        t0,
                        t1,
                    ),
                forall|j: int| i <= j < n_devs ==> #[trigger] self.devs@[j] == old(self).devs@[j],
            decreases n_devs - i,
        {
            let rate = self.devs[i].samp_rate();
            proof {
                assert((buf_ms as int) * (rate as int) <= u128::MAX) by (nonlinear_arith)
                    requires
                        buf_ms < 0x1_0000_0000_0000_0000int,
                        rate < 0x1_0000_0000_0000_0000int,
                ;
            }
            let wide: u128 = (buf_ms as u128) * (rate as u128) / 1000;
            let n_wide: u128 = if wide == 0 {
                1
            } else {
                wide
            };
            if n_wide > usize::MAX as u128 {
                return Err(StreamError::Value);
            }
            let n = n_wide as usize;
            let ghost before = *self;
            let r = self.devs[i].fill_next_buf(n, t0, t1);
            proof {
                let s = self.devs@;
                assert forall|a: int, b: int| 0 <= a < b < s.len() implies (#[trigger] s[a]).spec_name()
                    != (#[trigger] s[b]).spec_name() by {
                    assert(old(self).devs@[a].spec_name() != old(self).devs@[b].spec_name());
                }
                assert forall|a: int| 0 <= a < s.len() implies (#[trigger] s[a]).wf() by {
                    if a != i {
                        assert(s[a] == before.devs@[a]);
                    }
                }
            }
            if r.is_err() {
                return Err(StreamError::Value);
            }
            i = i + 1;
        }
        Ok(())
    }

    /// Configures a run with buffers of `bufsize_ms` milliseconds and
    /// computes its first buffer; fails with `Runtime` when a run is already
    /// configured, and with `NotFound` when the device that starts last or
    /// provides the reference clock is not registered.
    pub fn cfg_run(&mut self, bufsize_ms: u64) -> (r: Result<(), StreamError>)
        requires
            old(self).wf(),
        ensures
            final(self).wf(),
            old(self).run != RunPhase::Idle ==> r == Err::<(), StreamError>(StreamError::Runtime),
            old(self).run == RunPhase::Idle && bufsize_ms == 0 ==> r == Err::<(), StreamError>(
                StreamError::Value,
            ),
            old(self).run == RunPhase::Idle && bufsize_ms > 0 && !old(self).refs_known() ==> (
            r matches Err(StreamError::NotFound { name: n }) && !old(self).has_dev(n@)),
            old(self).run == RunPhase::Idle && bufsize_ms > 0 && old(self).refs_known() && !old(
                self
            ).window_ok(bufsize_ms, 0) ==> r == Err::<(), StreamError>(StreamError::Value),
            r.is_ok() <==> old(self).run == RunPhase::Idle && bufsize_ms > 0 && old(self).refs_known()
                && old(self).window_ok(bufsize_ms, 0),
            r.is_err() ==> final(self).run == old(self).run && final(self).bufsize_ms == old(
                self
            ).bufsize_ms && final(self).chunk == old(self).chunk,
            r.is_ok() ==> final(self).run == RunPhase::Configured && final(self).bufsize_ms
                == bufsize_ms && final(self).chunk == 0 && final(self).window_filled(bufsize_ms, 0),
            old(self).same_devices(*final(self)),
            final(self).fresh == old(self).fresh,
    {
        if self.run != RunPhase::Idle {
            return Err(StreamError::Runtime);
        }
        if bufsize_ms == 0 {
            return Err(StreamError::Value);
        }
        if let Some(name) = &self.starts_last {
            if self.find_dev(name.as_str()).is_none() {
                return Err(StreamError::NotFound { name: name.clone() });
            }
        }
        if let Some((name, _)) = &self.ref_clk_provider {
            if self.find_dev(name.as_str()).is_none() {
                return Err(StreamError::NotFound { name: name.clone() });
            }
        }
        self.fill_window(bufsize_ms, 0)?;
        self.run = RunPhase::Configured;
        self.bufsize_ms = bufsize_ms;
        self.chunk = 0;
        Ok(())
    }

    /// Hands every device's computed buffer to the hardware.
    fn hand_over_all(&mut self)
        requires
            old(self).wf(),
        ensures
            final(self).wf(),
            old(self).same_devices(*final(self)),
            forall|i: int|
                0 <= i < old(self).devs@.len() ==> old(self).devs@[i].handed_into(#[trigger] final(self).devs@[i]),
            final(self).run == old(self).run,
            final(self).bufsize_ms == old(self).bufsize_ms,
            final(self).chunk == old(self).chunk,
            final(self).fresh == old(self).fresh,
    {
        let n = self.devs.len();
        let mut i: usize = 0;
        while i < n
            invariant
                self.wf(),
                old(self).wf(),
                n == self.devs@.len(),
                n == old(self).devs@.len(),
                i <= n,
                self.starts_last == old(self).starts_last,
                self.ref_clk_provider == old(self).ref_clk_provider,
                self.total_run_time == old(self).total_run_time,
                self.run == old(self).run,
                self.bufsize_ms == old(self).bufsize_ms,
                self.chunk == old(self).chunk,
                self.fresh == old(self).fresh,
                forall|j: int| 0 <= j < i ==> old(self).devs@[j].same_but_buf(#[trigger] self.devs@[j]),
                forall|j: int| 0 <= j < i ==> old(self).devs@[j].handed_into(#[trigger] self.devs@[j]),
                forall|j: int| i <= j < n ==> #[trigger] self.devs@[j] == old(self).devs@[j],
            decreases n - i,
        {
            let ghost before = *self;
            self.devs[i].hand_over();
            proof {
                let s = self.devs@;
                assert forall|a: int, b: int| 0 <= a < b < s.len() implies (#[trigger] s[a]).spec_name()
                    != (#[trigger] s[b]).spec_name() by {
                    assert(old(self).devs@[a].spec_name() != old(self).devs@[b].spec_name());
                }
                assert forall|a: int| 0 <= a < s.len() implies (#[trigger] s[a]).wf() by {
                    if a != i {
                        assert(s[a] == before.devs@[a]);
                    }
                }
            }
            i = i + 1;
        }
    }

    /// Hands the computed buffer to the hardware and, with `calc_next`,
    /// computes the following one, so that production stays one buffer
    /// ahead of the hardware; fails with `Runtime` unless a run is
    /// configured. Buffer `k` holds time window `k` of the run: the first
    /// call hands over window 0, computed by `cfg_run`.
    pub fn stream_run(&mut self, calc_next: bool) -> (r: Result<(), StreamError>)
        requires
            old(self).wf(),
        ensures
            final(self).wf(),
            old(self).run == RunPhase::Idle ==> r == Err::<(), StreamError>(StreamError::Runtime)
                && final(self).run == old(self).run && final(self).chunk == old(self).chunk,
            old(self).run != RunPhase::Idle && old(self).chunk == u64::MAX ==> r == Err::<
                (),
                StreamError,
            >(StreamError::Value) && final(self).run == old(self).run && final(self).chunk == old(
                self
            ).chunk,
            old(self).run != RunPhase::Idle && old(self).chunk < u64::MAX ==> {
                let ms = old(self).bufsize_ms;
                let k = old(self).chunk as int;
                &&& final(self).run == RunPhase::Running
                &&& final(self).chunk == k + 1
                &&& (old(self).window_filled(ms, k) ==> final(self).handed_filled(ms, k))
                &&& (r.is_ok() <==> (calc_next ==> old(self).window_ok(ms, k + 1)))
                &&& (r.is_err() ==> r == Err::<(), StreamError>(StreamError::Value))
                &&& (r.is_ok() && calc_next ==> final(self).window_filled(ms, k + 1))
            },
            final(self).bufsize_ms == old(self).bufsize_ms,
            old(self).same_devices(*final(self)),
            final(self).fresh == old(self).fresh,
    {
        if self.run == RunPhase::Idle {
            return Err(StreamError::Runtime);
        }
        if self.chunk == u64::MAX {
            return Err(StreamError::Value);
        }
        let next = self.chunk + 1;
        let ghost ms = self.bufsize_ms;
        let ghost k = self.chunk as int;
        let ghost s0 = *self;
        self.hand_over_all();
        self.run = RunPhase::Running;
        self.chunk = next;
        let ghost s1 = *self;
        proof {
            assert forall|i: int| 0 <= i < s1.devs@.len() implies (#[trigger] s1.devs@[i]).spec_samp_rate()
                == s0.devs@[i].spec_samp_rate() && (s0.window_filled(ms, k) ==> s1.devs@[i].spec_cur_holds(
                buf_len(s1.devs@[i].spec_samp_rate(), ms) as usize,
                Self::window_start(ms, k) as u64,
                Self::window_start(ms, k + 1) as u64,
            )) && s1.devs@[i].spec_window_fails(
                buf_len(s1.devs@[i].spec_samp_rate(), ms) as usize,
                Self::window_start(ms, k + 1) as u64,
                Self::window_start(ms, k + 2) as u64,
            ) == s0.devs@[i].spec_window_fails(
                buf_len(s1.devs@[i].spec_samp_rate(), ms) as usize,
                Self::window_start(ms, k + 1) as u64,
                Self::window_start(ms, k + 2) as u64,
            ) by {
                assert(s0.devs@[i].same_but_buf(s1.devs@[i]));
                assert(s0.devs@[i].handed_into(s1.devs@[i]));
            }
            let t0 = Self::window_start(ms, k + 1) as u64;
            let t1 = Self::window_start(ms, k + 2) as u64;
            assert(s1.devs@.len() == s0.devs@.len());
            if s0.window_ok(ms, k + 1) {
                assert forall|i: int| 0 <= i < s1.devs@.len() implies buf_len(
                    (#[trigger] s1.devs@[i]).spec_samp_rate(),
                    ms,
                ) <= usize::MAX && !s1.devs@[i].spec_window_fails(
                    buf_len(s1.devs@[i].spec_samp_rate(), ms) as usize,
                    t0,
                    t1,
                ) by {
                    assert(buf_len(s0.devs@[i].spec_samp_rate(), ms) <= usize::MAX);
                }
                assert(s1.window_ok(ms, k + 1));
            }
            if s1.window_ok(ms, k + 1) {
                assert forall|i: int| 0 <= i < s0.devs@.len() implies buf_len(
                    (#[trigger] s0.devs@[i]).spec_samp_rate(),
                    ms,
                ) <= usize::MAX && !s0.devs@[i].spec_window_fails(
                    buf_len(s0.devs@[i].spec_samp_rate(), ms) as usize,
                    t0,
                    t1,
                ) by {
                    assert(buf_len(s1.devs@[i].spec_samp_rate(), ms) <= usize::MAX);
                }
                assert(s0.window_ok(ms, k + 1));
            }
        }
        if calc_next {
            let r = self.fill_window(self.bufsize_ms, next);
            proof {
                assert forall|i: int| 0 <= i < self.devs@.len() implies (s0.window_filled(ms, k)
                    ==> (#[trigger] self.devs@[i]).spec_cur_holds(
                    buf_len(self.devs@[i].spec_samp_rate(), ms) as usize,
                    Self::window_start(ms, k) as u64,
                    Self::window_start(ms, k + 1) as u64,
                )) by {
                    assert(s1.devs@[i].same_but_buf(self.devs@[i]));
                    assert(s1.devs@[i].same_cur(self.devs@[i]));
                }
            }
            r?;
        }
        Ok(())
    }

    /// Ends the run; fails with `Runtime` when none is configured.
    pub fn close_run(&mut self) -> (r: Result<(), StreamError>)
        ensures
            r.is_err() <==> old(self).run == RunPhase::Idle,
            r.is_err() ==> r == Err::<(), StreamError>(StreamError::Runtime) && *final(self) == *old(self),
            r.is_ok() ==> final(self).run == RunPhase::Idle && final(self).chunk == 0,
            old(self).same_devices(*final(self)),
            final(self).fresh == old(self).fresh,
    {
        if self.run == RunPhase::Idle {
            return Err(StreamError::Runtime);
        }
        self.run = RunPhase::Idle;
        self.chunk = 0;
        Ok(())
    }
}

impl StreamerWrap {
    /// Position of the device named `name` (meaningful when there is one).
    pub open spec fn dev_at(&self, name: Seq<char>) -> int {
        choose|i: int| 0 <= i < self.devs@.len() && (#[trigger] self.devs@[i]).spec_name() == name
    }

    pub proof fn lemma_dev_unique(&self, i: int, name: Seq<char>)
        requires
            self.wf(),
            0 <= i < self.devs@.len(),
            self.devs@[i].spec_name() == name,
        ensures
            self.has_dev(name),
            self.dev_at(name) == i,
    {
        let k = self.dev_at(name);
        if k != i {
            if k < i {
                assert(self.devs@[k].spec_name() != self.devs@[i].spec_name());
            } else {
                assert(self.devs@[i].spec_name() != self.devs@[k].spec_name());
            }
        }
    }

    /// Where analog channel `idx` of device `name` stands, or why it cannot
    /// be had.
    pub open spec fn ao_lookup(&self, name: Seq<char>, idx: usize) -> Result<(int, int), LookupFail> {
        if !self.has_dev(name) {
            Err(LookupFail::NoDevice)
        } else {
            match self.devs@[self.dev_at(name)] {
                NIDev::AO(d) => if d.has_key((idx, 0)) {
                    Ok((self.dev_at(name), d.key_at((idx, 0))))
                } else {
                    Err(LookupFail::NoChannel)
                },
                NIDev::DO(_) => Err(LookupFail::WrongKind),
            }
        }
    }

    /// Where digital channel `port`/`line` of device `name` stands, or why
    /// it cannot be had.
    pub open spec fn do_lookup(&self, name: Seq<char>, port: usize, line: usize) -> Result<
        (int, int),
        LookupFail,
    > {
        if !self.has_dev(name) {
            Err(LookupFail::NoDevice)
        } else {
            match self.devs@[self.dev_at(name)] {
                NIDev::DO(d) => if d.has_key((port, line)) {
                    Ok((self.dev_at(name), d.key_at((port, line))))
                } else {
                    Err(LookupFail::NoChannel)
                },
                NIDev::AO(_) => Err(LookupFail::WrongKind),
            }
        }
    }

    pub open spec fn ao_chan_at(&self, i: int, j: int) -> Channel<i64> {
        match self.devs@[i] {
            NIDev::AO(d) => d.chans@[j],
            NIDev::DO(_) => arbitrary(),
        }
    }

    pub open spec fn do_chan_at(&self, i: int, j: int) -> Channel<bool> {
        match self.devs@[i] {
            NIDev::DO(d) => d.chans@[j],
            NIDev::AO(_) => arbitrary(),
        }
    }

    /// Only device `i` may differ between `self` and `new`.
    pub open spec fn only_dev_changed(&self, new: Self, i: int) -> bool {
        &&& new.devs@.len() == self.devs@.len()
        &&& forall|k: int|
            0 <= k < self.devs@.len() && k != i ==> #[trigger] new.devs@[k] == self.devs@[k]
        &&& new.starts_last == self.starts_last
        &&& new.ref_clk_provider == self.ref_clk_provider
        &&& new.run == self.run
        &&& new.total_run_time == self.total_run_time
        &&& new.bufsize_ms == self.bufsize_ms
        &&& new.chunk == self.chunk
    }

    /// Only channel `j` of device `i` may differ between `self` and `new`.
    pub open spec fn only_chan_changed(&self, new: Self, i: int, j: int) -> bool {
        &&& self.only_dev_changed(new, i)
        &&& match (self.devs@[i], new.devs@[i]) {
            (NIDev::AO(a), NIDev::AO(b)) => a.only_chan_changed(b, j),
            (NIDev::DO(a), NIDev::DO(b)) => a.only_chan_changed(b, j),
            _ => false,
        }
    }

    proof fn lemma_wf_after_dev_update(&self, new: Self, i: int)
        requires
            self.wf(),
            0 <= i < self.devs@.len(),
            self.only_dev_changed(new, i),
            new.devs@[i].wf(),
            new.devs@[i].spec_name() == self.devs@[i].spec_name(),
        ensures
            new.wf(),
    {
        let s = new.devs@;
        assert forall|a: int, b: int| 0 <= a < b < s.len() implies (#[trigger] s[a]).spec_name()
            != (#[trigger] s[b]).spec_name() by {
            assert(self.devs@[a].spec_name() != self.devs@[b].spec_name());
        }
        assert forall|a: int| 0 <= a < s.len() implies (#[trigger] s[a]).wf() by {
            if a != i {
                assert(s[a] == self.devs@[a]);
            }
        }
    }

    fn ao_chan_pos(&self, dev_name: &str, chan_idx: usize) -> (r: Result<(usize, usize), StreamError>)
        requires
            self.wf(),
        ensures
            r matches Ok((i, j)) ==> self.ao_lookup(dev_name@, chan_idx) == Ok::<
                (int, int),
                LookupFail,
            >((i as int, j as int)) && i < self.devs@.len() && (self.devs@[i as int] matches NIDev::AO(
                d,
            ) && j < d.chans@.len()),
            r.is_err() ==> (self.ao_lookup(dev_name@, chan_idx) matches Err(f) && reports(
                r,
                f,
                dev_name@,
                ao_name(chan_idx as nat),
                self.dev_names(),
            )),
    {
        let i = self.assert_has_dev(dev_name)?;
        proof {
            self.lemma_dev_unique(i as int, dev_name@);
        }
        match &self.devs[i] {
            NIDev::AO(d) => match d.chan_pos((chan_idx, 0)) {
                Some(j) => {
                    proof {
                        d.lemma_key_unique(j as int, (chan_idx, 0));
                    }
                    Ok((i, j))
                },
                None => Err(StreamError::NotFound { name: chan_path_text(dev_name, ao_name_text(chan_idx).as_str()) }),
            },
            NIDev::DO(_) => Err(StreamError::TypeMismatch { name: dev_name.to_owned() }),
        }
    }

    fn do_chan_pos(&self, dev_name: &str, port: usize, line: usize) -> (r: Result<
        (usize, usize),
        StreamError,
    >)
        requires
            self.wf(),
        ensures
            r matches Ok((i, j)) ==> self.do_lookup(dev_name@, port, line) == Ok::<
                (int, int),
                LookupFail,
            >((i as int, j as int)) && i < self.devs@.len() && (self.devs@[i as int] matches NIDev::DO(
                d,
            ) && j < d.chans@.len()),
            r.is_err() ==> (self.do_lookup(dev_name@, port, line) matches Err(f) && reports(
                r,
                f,
                dev_name@,
                do_name(port as nat, line as nat),
                self.dev_names(),
            )),
    {
        let i = self.assert_has_dev(dev_name)?;
        proof {
            self.lemma_dev_unique(i as int, dev_name@);
        }
        match &self.devs[i] {
            NIDev::DO(d) => match d.chan_pos((port, line)) {
                Some(j) => {
                    proof {
                        d.lemma_key_unique(j as int, (port, line));
                    }
                    Ok((i, j))
                },
                None => {
                    let name = chan_path_text(dev_name, do_name_text(port, line).as_str());
                    proof {
                        assert(self.do_lookup(dev_name@, port, line) == Err::<(int, int), LookupFail>(
                            LookupFail::NoChannel,
                        ));
                    }
                    Err(StreamError::NotFound { name })
                },
            },
            NIDev::AO(_) => {
                let name = dev_name.to_owned();
                proof {
                    assert(self.do_lookup(dev_name@, port, line) == Err::<(int, int), LookupFail>(
                        LookupFail::WrongKind,
                    ));
                }
                Err(StreamError::TypeMismatch { name })
            },
        }
    }

    pub fn ao_chan_name(&self, dev_name: &str, chan_idx: usize) -> (r: Result<String, StreamError>)
        requires
            self.wf(),
        ensures
            match self.ao_lookup(dev_name@, chan_idx) {
                Ok(_) => r matches Ok(s) && s@ == ao_name(chan_idx as nat),
                Err(f) => reports(r, f, dev_name@, ao_name(chan_idx as nat), self.dev_names()),
            },
    {
        let _ = self.ao_chan_pos(dev_name, chan_idx)?;
        Ok(ao_name_text(chan_idx))
    }

    pub fn do_chan_name(&self, dev_name: &str, port: usize, line: usize) -> (r: Result<String, StreamError>)
        requires
            self.wf(),
        ensures
            match self.do_lookup(dev_name@, port, line) {
                Ok(_) => r matches Ok(s) && s@ == do_name(port as nat, line as nat),
                Err(f) => reports(r, f, dev_name@, do_name(port as nat, line as nat), self.dev_names()),
            },
    {
        let _ = self.do_chan_pos(dev_name, port, line)?;
        Ok(do_name_text(port, line))
    }

    pub fn ao_chan_dflt_val(&self, dev_name: &str, chan_idx: usize) -> (r: Result<i64, StreamError>)
        requires
            self.wf(),
        ensures
            match self.ao_lookup(dev_name@, chan_idx) {
                Ok((i, j)) => r == Ok::<i64, StreamError>(self.ao_chan_at(i, j).dflt_val),
                Err(f) => reports(r, f, dev_name@, ao_name(chan_idx as nat), self.dev_names()),
            },
    {
        let (i, j) = self.ao_chan_pos(dev_name, chan_idx)?;
        match &self.devs[i] {
            NIDev::AO(d) => Ok(d.chans[j].dflt_val()),
            NIDev::DO(_) => Err(StreamError::TypeMismatch { name: dev_name.to_owned() }),
        }
    }

    pub fn do_chan_dflt_val(&self, dev_name: &str, port: usize, line: usize) -> (r: Result<bool, StreamError>)
        requires
            self.wf(),
        ensures
            match self.do_lookup(dev_name@, port, line) {
                Ok((i, j)) => r == Ok::<bool, StreamError>(self.do_chan_at(i, j).dflt_val),
                Err(f) => reports(r, f, dev_name@, do_name(port as nat, line as nat), self.dev_names()),
            },
    {
        let (i, j) = self.do_chan_pos(dev_name, port, line)?;
        match &self.devs[i] {
            NIDev::DO(d) => Ok(d.chans[j].dflt_val()),
            NIDev::AO(_) => Err(StreamError::TypeMismatch { name: dev_name.to_owned() }),
        }
    }

    pub fn ao_chan_rst_val(&self, dev_name: &str, chan_idx: usize) -> (r: Result<i64, StreamError>)
        requires
            self.wf(),
        ensures
            match self.ao_lookup(dev_name@, chan_idx) {
                Ok((i, j)) => r == Ok::<i64, StreamError>(self.ao_chan_at(i, j).rst_val),
                Err(f) => reports(r, f, dev_name@, ao_name(chan_idx as nat), self.dev_names()),
            },
    {
        let (i, j) = self.ao_chan_pos(dev_name, chan_idx)?;
        match &self.devs[i] {
            NIDev::AO(d) => Ok(d.chans[j].rst_val()),
            NIDev::DO(_) => Err(StreamError::TypeMismatch { name: dev_name.to_owned() }),
        }
    }

    pub fn do_chan_rst_val(&self, dev_name: &str, port: usize, line: usize) -> (r: Result<bool, StreamError>)
        requires
            self.wf(),
        ensures
            match self.do_lookup(dev_name@, port, line) {
                Ok((i, j)) => r == Ok::<bool, StreamError>(self.do_chan_at(i, j).rst_val),
                Err(f) => reports(r, f, dev_name@, do_name(port as nat, line as nat), self.dev_names()),
            },
    {
        let (i, j) = self.do_chan_pos(dev_name, port, line)?;
        match &self.devs[i] {
            NIDev::DO(d) => Ok(d.chans[j].rst_val()),
            NIDev::AO(_) => Err(StreamError::TypeMismatch { name: dev_name.to_owned() }),
        }
    }

    /// Samples analog channel `chan_idx` of device `dev_name`.
    pub fn ao_chan_calc_nsamps(
        &self,
        dev_name: &str,
        chan_idx: usize,
        n_samps: usize,
        start_time: Option<u64>,
        end_time: Option<u64>,
    ) -> (r: Result<Vec<i64>, StreamError>)
        requires
            self.wf(),
        ensures
            match self.ao_lookup(dev_name@, chan_idx) {
                Ok((i, j)) => {
                    let c = self.ao_chan_at(i, j);
                    &&& (r.is_err() <==> c.nsamps_fails(n_samps, start_time, end_time))
                    &&& (r.is_err() ==> r == Err::<Vec<i64>, StreamError>(StreamError::Value))
                    &&& (r matches Ok(v) ==> c.samples_of(v@, n_samps, start_time, end_time))
                },
                Err(f) => reports(r, f, dev_name@, ao_name(chan_idx as nat), self.dev_names()),
            },
    {
        let (i, j) = self.ao_chan_pos(dev_name, chan_idx)?;
        match &self.devs[i] {
            NIDev::AO(d) => d.chans[j].calc_nsamps(n_samps, start_time, end_time),
            NIDev::DO(_) => Err(StreamError::TypeMismatch { name: dev_name.to_owned() }),
        }
    }

    /// Samples digital channel `port`/`line` of device `dev_name`.
    pub fn do_chan_calc_nsamps(
        &self,
        dev_name: &str,
        port: usize,
        line: usize,
        n_samps: usize,
        start_time: Option<u64>,
        end_time: Option<u64>,
    ) -> (r: Result<Vec<bool>, StreamError>)
        requires
            self.wf(),
        ensures
            match self.do_lookup(dev_name@, port, line) {
                Ok((i, j)) => {
                    let c = self.do_chan_at(i, j);
                    &&& (r.is_err() <==> c.nsamps_fails(n_samps, start_time, end_time))
                    &&& (r.is_err() ==> r == Err::<Vec<bool>, StreamError>(StreamError::Value))
                    &&& (r matches Ok(v) ==> c.samples_of(v@, n_samps, start_time, end_time))
                },
                Err(f) => reports(r, f, dev_name@, do_name(port as nat, line as nat), self.dev_names()),
            },
    {
        let (i, j) = self.do_chan_pos(dev_name, port, line)?;
        match &self.devs[i] {
            NIDev::DO(d) => d.chans[j].calc_nsamps(n_samps, start_time, end_time),
            NIDev::AO(_) => Err(StreamError::TypeMismatch { name: dev_name.to_owned() }),
        }
    }
}

impl StreamerWrap {
    /// Registers analog channel `chan_idx` on device `dev_name`, with the
    /// device's sample rate.
    pub fn add_ao_chan(&mut self, dev_name: &str, chan_idx: usize, dflt_val: i64, rst_val: i64) -> (r:
        Result<(), StreamError>)
        requires
            old(self).wf(),
        ensures
            final(self).wf(),
            !old(self).has_dev(dev_name@) ==> dev_missing(r, dev_name@, old(self).dev_names()),
            old(self).has_dev(dev_name@) ==> match old(self).devs@[old(self).dev_at(dev_name@)] {
                NIDev::DO(_) => r matches Err(StreamError::TypeMismatch { name: n }) && n@ == dev_name@,
                NIDev::AO(d) => if d.has_name(ao_name(chan_idx as nat)) {
                    r == Err::<(), StreamError>(StreamError::DuplicateChannel)
                } else {
                    r.is_ok()
                },
            },
            r.is_err() ==> *final(self) == *old(self),
            r.is_ok() ==> {
                let i = old(self).dev_at(dev_name@);
                &&& old(self).only_dev_changed(*final(self), i)
                &&& final(self).fresh == old(self).fresh
                &&& final(self).ao_lookup(dev_name@, chan_idx) matches Ok((i2, j)) && i2 == i && {
                    let c = final(self).ao_chan_at(i, j);
                    &&& c.key == (chan_idx, 0usize)
                    &&& c.samp_rate == old(self).devs@[i].spec_samp_rate()
                    &&& c.dflt_val == dflt_val
                    &&& c.rst_val == rst_val
                    &&& c.instrs@.len() == 0
                    &&& c.compiled.is_none()
                    &&& (old(self).devs@[i], final(self).devs@[i]) matches (
                        NIDev::AO(a),
                        NIDev::AO(b),
                    ) && a.chan_added_into(b, c)
                }
            },
    {
        let i = self.assert_has_dev(dev_name)?;
        proof {
            self.lemma_dev_unique(i as int, dev_name@);
        }
        let nm = ao_name_text(chan_idx);
        match &self.devs[i] {
            NIDev::AO(d) => {
                if d.name_pos(nm.as_str()).is_some() {
                    return Err(StreamError::DuplicateChannel);
                }
            },
            NIDev::DO(_) => {
                return Err(StreamError::TypeMismatch { name: dev_name.to_owned() });
            },
        }
        let ghost old_dev = self.devs@[i as int];
        match &mut self.devs[i] {
            NIDev::AO(d) => {
                let c = Channel::new((chan_idx, 0), nm, d.samp_rate, dflt_val, rst_val);
                let _ = d.add_chan_sort(c);
                proof {
                    let p = choose|p: int|
                        0 <= p <= old_dev->AO_0.chans@.len() && d.chans@ == old_dev->AO_0.chans@.insert(
                            p,
                            c,
                        );
                    assert(d.chans@[p] == c);
                    d.lemma_key_unique(p, (chan_idx, 0usize));
                    assert forall|q: int| 0 <= q < d.chans@.len() implies (#[trigger] d.chans@[q]).key.1 == 0 by {
                        if q < p {
                            assert(d.chans@[q] == old_dev->AO_0.chans@[q]);
                        } else if q > p {
                            assert(d.chans@[q] == old_dev->AO_0.chans@[q - 1]);
                        }
                    }
                }
            },
            NIDev::DO(_) => {},
        }
        proof {
            old(self).lemma_wf_after_dev_update(*self, i as int);
            self.lemma_dev_unique(i as int, dev_name@);
        }
        Ok(())
    }

    /// Inserts an instruction on analog channel `chan_idx` of device
    /// `dev_name`; on success the streamer is no longer freshly compiled.
    pub fn ao_chan_add_instr(
        &mut self,
        dev_name: &str,
        chan_idx: usize,
        func: Func<i64>,
        t: u64,
        dur_spec: Option<(u64, bool)>,
    ) -> (r: Result<(), StreamError>)
        requires
            old(self).wf(),
            func.wf(),
            match dur_spec {
                Some((d, _)) => t + d <= u64::MAX,
                None => true,
            },
        ensures
            final(self).wf(),
            r.is_err() ==> *final(self) == *old(self),
            match old(self).ao_lookup(dev_name@, chan_idx) {
                Err(f) => reports(r, f, dev_name@, ao_name(chan_idx as nat), old(self).dev_names()),
                Ok((i, j)) => {
                    let c = old(self).ao_chan_at(i, j);
                    let ins = Instr { start: t, dur: dur_spec, func };
                    &&& (r.is_ok() <==> c.add_accepts(ins))
                    &&& (r matches Err(e) ==> c.add_error(ins, e))
                    &&& (r.is_ok() ==> old(self).only_chan_changed(*final(self), i, j) && c.added_into(
                        final(self).ao_chan_at(i, j),
                        ins,
                    ) && !final(self).fresh)
                },
            },
    {
        let (i, j) = self.ao_chan_pos(dev_name, chan_idx)?;
        let ins = Instr { start: t, dur: dur_spec, func };
        match &self.devs[i] {
            NIDev::AO(d) => {
                d.chans[j].check_add(&ins)?;
            },
            NIDev::DO(_) => {
                return Err(StreamError::TypeMismatch { name: dev_name.to_owned() });
            },
        }
        match &mut self.devs[i] {
            NIDev::AO(d) => d.chan_add_instr(j, func, t, dur_spec),
            NIDev::DO(_) => {},
        }
        proof {
            old(self).lemma_wf_after_dev_update(*self, i as int);
        }
        self.fresh = false;
        Ok(())
    }

    /// Registers digital channel `port`/`line` on device `dev_name`, with the
    /// device's sample rate.
    pub fn add_do_chan(&mut self, dev_name: &str, port: usize, line: usize, dflt_val: bool, rst_val: bool) -> (r:
        Result<(), StreamError>)
        requires
            old(self).wf(),
        ensures
            final(self).wf(),
            !old(self).has_dev(dev_name@) ==> dev_missing(r, dev_name@, old(self).dev_names()),
            old(self).has_dev(dev_name@) ==> match old(self).devs@[old(self).dev_at(dev_name@)] {
                NIDev::AO(_) => r matches Err(StreamError::TypeMismatch { name: n }) && n@ == dev_name@,
                NIDev::DO(d) => if d.has_name(do_name(port as nat, line as nat)) {
                    r == Err::<(), StreamError>(StreamError::DuplicateChannel)
                } else {
                    r.is_ok()
                },
            },
            r.is_err() ==> *final(self) == *old(self),
            r.is_ok() ==> {
                let i = old(self).dev_at(dev_name@);
                &&& old(self).only_dev_changed(*final(self), i)
                &&& final(self).fresh == old(self).fresh
                &&& final(self).do_lookup(dev_name@, port, line) matches Ok((i2, j)) && i2 == i && {
                    let c = final(self).do_chan_at(i, j);
                    &&& c.key == (port, line)
                    &&& c.samp_rate == old(self).devs@[i].spec_samp_rate()
                    &&& c.dflt_val == dflt_val
                    &&& c.rst_val == rst_val
                    &&& c.instrs@.len() == 0
                    &&& c.compiled.is_none()
                    &&& (old(self).devs@[i], final(self).devs@[i]) matches (
                        NIDev::DO(a),
                        NIDev::DO(b),
                    ) && a.chan_added_into(b, c)
                }
            },
    {
        let i = self.assert_has_dev(dev_name)?;
        proof {
            self.lemma_dev_unique(i as int, dev_name@);
        }
        let nm = do_name_text(port, line);
        match &self.devs[i] {
            NIDev::DO(d) => {
                if d.name_pos(nm.as_str()).is_some() {
                    return Err(StreamError::DuplicateChannel);
                }
            },
            NIDev::AO(_) => {
                return Err(StreamError::TypeMismatch { name: dev_name.to_owned() });
            },
        }
        let ghost old_dev = self.devs@[i as int];
        match &mut self.devs[i] {
            NIDev::DO(d) => {
                let c = Channel::new((port, line), nm, d.samp_rate, dflt_val, rst_val);
                let _ = d.add_chan_sort(c);
                proof {
                    let p = choose|p: int|
                        0 <= p <= old_dev->DO_0.chans@.len() && d.chans@ == old_dev->DO_0.chans@.insert(
                            p,
                            c,
                        );
                    assert(d.chans@[p] == c);
                    d.lemma_key_unique(p, (port, line));
                    
                }
            },
            NIDev::AO(_) => {},
        }
        proof {
            old(self).lemma_wf_after_dev_update(*self, i as int);
            self.lemma_dev_unique(i as int, dev_name@);
        }
        Ok(())
    }

    /// Inserts an instruction on digital channel `port`/`line` of device
    /// `dev_name`; on success the streamer is no longer freshly compiled.
    pub fn do_chan_add_instr(
        &mut self,
        dev_name: &str,
        port: usize, line: usize,
        func: Func<bool>,
        t: u64,
        dur_spec: Option<(u64, bool)>,
    ) -> (r: Result<(), StreamError>)
        requires
            old(self).wf(),
            func.wf(),
            match dur_spec {
                Some((d, _)) => t + d <= u64::MAX,
                None => true,
            },
        ensures
            final(self).wf(),
            r.is_err() ==> *final(self) == *old(self),
            match old(self).do_lookup(dev_name@, port, line) {
                Err(f) => reports(r, f, dev_name@, do_name(port as nat, line as nat), old(self).dev_names()),
                Ok((i, j)) => {
                    let c = old(self).do_chan_at(i, j);
                    let ins = Instr { start: t, dur: dur_spec, func };
                    &&& (r.is_ok() <==> c.add_accepts(ins))
                    &&& (r matches Err(e) ==> c.add_error(ins, e))
                    &&& (r.is_ok() ==> old(self).only_chan_changed(*final(self), i, j) && c.added_into(
                        final(self).do_chan_at(i, j),
                        ins,
                    ) && !final(self).fresh)
                },
            },
    {
        let (i, j) = self.do_chan_pos(dev_name, port, line)?;
        let ins = Instr { start: t, dur: dur_spec, func };
        match &self.devs[i] {
            NIDev::DO(d) => {
                d.chans[j].check_add(&ins)?;
            },
            NIDev::AO(_) => {
                return Err(StreamError::TypeMismatch { name: dev_name.to_owned() });
            },
        }
        match &mut self.devs[i] {
            NIDev::DO(d) => d.chan_add_instr(j, func, t, dur_spec),
            NIDev::AO(_) => {},
        }
        proof {
            old(self).lemma_wf_after_dev_update(*self, i as int);
        }
        self.fresh = false;
        Ok(())
    }

}

impl StreamerWrap {
    pub fn get_starts_last(&self) -> (r: Option<String>)
        ensures
            r == self.starts_last,
    {
        clone_opt_string(&self.starts_last)
    }

    /// Names the device that must start last in a synchronised run; the name
    /// is checked when the run starts, not here.
    pub fn set_starts_last(&mut self, name: Option<String>)
        ensures
            final(self).starts_last == name,
            final(self).devs == old(self).devs,
            final(self).ref_clk_provider == old(self).ref_clk_provider,
            final(self).run == old(self).run,
            final(self).total_run_time == old(self).total_run_time,
            final(self).bufsize_ms == old(self).bufsize_ms,
            final(self).chunk == old(self).chunk,
            final(self).fresh == old(self).fresh,
    {
        self.starts_last = name;
    }

    pub fn get_ref_clk_provider(&self) -> (r: Option<(String, String)>)
        ensures
            r == self.ref_clk_provider,
    {
        match &self.ref_clk_provider {
            Some((d, t)) => Some((d.clone(), t.clone())),
            None => None,
        }
    }

    /// Names the device and terminal that export the reference clock.
    pub fn set_ref_clk_provider(&mut self, provider: Option<(String, String)>)
        ensures
            final(self).ref_clk_provider == provider,
            final(self).devs == old(self).devs,
            final(self).starts_last == old(self).starts_last,
            final(self).run == old(self).run,
            final(self).total_run_time == old(self).total_run_time,
            final(self).bufsize_ms == old(self).bufsize_ms,
            final(self).chunk == old(self).chunk,
            final(self).fresh == old(self).fresh,
    {
        self.ref_clk_provider = provider;
    }

    pub fn dev_last_instr_end_time(&self, name: &str) -> (r: Result<u64, StreamError>)
        requires
            self.wf(),
        ensures
            !self.has_dev(name@) ==> dev_missing(r, name@, self.dev_names()),
            self.has_dev(name@) ==> r == Ok::<u64, StreamError>(
                self.devs@[self.dev_at(name@)].spec_last_end() as u64,
            ),
    {
        let i = self.assert_has_dev(name)?;
        proof {
            self.lemma_dev_unique(i as int, name@);
        }
        Ok(self.devs[i].last_instr_end_time())
    }

    pub fn dev_get_samp_rate(&self, name: &str) -> (r: Result<u64, StreamError>)
        requires
            self.wf(),
        ensures
            !self.has_dev(name@) ==> dev_missing(r, name@, self.dev_names()),
            self.has_dev(name@) ==> r == Ok::<u64, StreamError>(
                self.devs@[self.dev_at(name@)].spec_samp_rate(),
            ),
    {
        let i = self.assert_has_dev(name)?;
        proof {
            self.lemma_dev_unique(i as int, name@);
        }
        Ok(self.devs[i].samp_rate())
    }

    /// Discards the compiled state of every channel of device `name`.
    pub fn dev_clear_edit_cache(&mut self, name: &str) -> (r: Result<(), StreamError>)
        requires
            old(self).wf(),
        ensures
            final(self).wf(),
            r.is_err() <==> !old(self).has_dev(name@),
            r.is_err() ==> dev_missing(r, name@, old(self).dev_names()) && *final(self)
                == *old(self),
            r.is_ok() ==> {
                let i = old(self).dev_at(name@);
                &&& old(self).only_dev_changed(*final(self), i)
                &&& old(self).devs@[i].cleared_into(final(self).devs@[i])
                &&& !final(self).fresh
            },
    {
        let i = self.assert_has_dev(name)?;
        proof {
            self.lemma_dev_unique(i as int, name@);
        }
        self.devs[i].clear_edit_cache();
        proof {
            old(self).lemma_wf_after_dev_update(*self, i as int);
        }
        self.fresh = false;
        Ok(())
    }

    /// End time of the last instruction of the channel the driver calls
    /// `chan_name` on device `dev_name`.
    pub fn chan_last_instr_end_time(&self, dev_name: &str, chan_name: &str) -> (r: Result<
        u64,
        StreamError,
    >)
        requires
            self.wf(),
        ensures
            r.is_err() <==> !(self.has_dev(dev_name@) && self.devs@[self.dev_at(
                dev_name@,
            )].has_named_chan(chan_name@)),
            !self.has_dev(dev_name@) ==> dev_missing(r, dev_name@, self.dev_names()),
            self.has_dev(dev_name@) && !self.devs@[self.dev_at(dev_name@)].has_named_chan(chan_name@)
                ==> not_found(r, chan_path(dev_name@, chan_name@)),
            r matches Ok(e) ==> {
                let d = self.devs@[self.dev_at(dev_name@)];
                exists|j: int|
                    0 <= j < d.spec_chan_count() && d.chan_name_of(j) == chan_name@ && e
                        == d.chan_last_end(j)
            },
    {
        let i = self.assert_has_dev(dev_name)?;
        proof {
            self.lemma_dev_unique(i as int, dev_name@);
        }
        match self.devs[i].chan_by_name(chan_name) {
            None => Err(StreamError::NotFound { name: chan_path_text(dev_name, chan_name) }),
            Some(j) => match &self.devs[i] {
                NIDev::AO(d) => Ok(d.chans[j].last_instr_end_time()),
                NIDev::DO(d) => Ok(d.chans[j].last_instr_end_time()),
            },
        }
    }

    /// Discards the compiled state of the channel the driver calls
    /// `chan_name` on device `dev_name`.
    pub fn chan_clear_edit_cache(&mut self, dev_name: &str, chan_name: &str) -> (r: Result<
        (),
        StreamError,
    >)
        requires
            old(self).wf(),
        ensures
            final(self).wf(),
            r.is_err() <==> !(old(self).has_dev(dev_name@) && old(self).devs@[old(self).dev_at(
                dev_name@,
            )].has_named_chan(chan_name@)),
            r.is_err() ==> *final(self) == *old(self),
            !old(self).has_dev(dev_name@) ==> dev_missing(r, dev_name@, old(self).dev_names()),
            old(self).has_dev(dev_name@) && !old(self).devs@[old(self).dev_at(
                dev_name@,
            )].has_named_chan(chan_name@) ==> not_found(r, chan_path(dev_name@, chan_name@)),
            r.is_ok() ==> {
                let i = old(self).dev_at(dev_name@);
                let d = old(self).devs@[i];
                &&& old(self).only_dev_changed(*final(self), i)
                &&& exists|j: int|
                    0 <= j < d.spec_chan_count() && d.chan_name_of(j) == chan_name@
                        && d.chan_cleared_into(final(self).devs@[i], j)
                &&& !final(self).fresh
            },
    {
        let i = self.assert_has_dev(dev_name)?;
        proof {
            self.lemma_dev_unique(i as int, dev_name@);
        }
        let j = match self.devs[i].chan_by_name(chan_name) {
            None => {
                return Err(StreamError::NotFound { name: chan_path_text(dev_name, chan_name) });
            },
            Some(j) => j,
        };
        match &mut self.devs[i] {
            NIDev::AO(d) => d.chan_clear_edit_cache(j),
            NIDev::DO(d) => d.chan_clear_edit_cache(j),
        }
        proof {
            old(self).lemma_wf_after_dev_update(*self, i as int);
        }
        self.fresh = false;
        Ok(())
    }

    /// Replaces the hardware settings of device `i`.
    fn replace_hw_cfg(&mut self, i: usize, cfg: HwCfg)
        requires
            old(self).wf(),
            i < old(self).devs@.len(),
        ensures
            final(self).wf(),
            old(self).only_dev_changed(*final(self), i as int),
            final(self).fresh == old(self).fresh,
            old(self).devs@[i as int].hw_replaced_into(final(self).devs@[i as int], cfg),
    {
        match &mut self.devs[i] {
            NIDev::AO(d) => d.hw_cfg = cfg,
            NIDev::DO(d) => d.hw_cfg = cfg,
        }
        proof {
            old(self).lemma_wf_after_dev_update(*self, i as int);
        }
    }

    /// Reads the start trigger input terminal of device `name`.
    pub fn dev_get_start_trig_in(&self, name: &str) -> (r: Result<Option<String>, StreamError>)
        requires
            self.wf(),
        ensures
            !self.has_dev(name@) ==> dev_missing(r, name@, self.dev_names()),
            self.has_dev(name@) ==> r == Ok::<Option<String>, StreamError>(
                self.devs@[self.dev_at(name@)].spec_hw_cfg().start_trig_in,
            ),
    {
        let i = self.assert_has_dev(name)?;
        proof {
            self.lemma_dev_unique(i as int, name@);
        }
        Ok(clone_opt_string(&self.devs[i].hw_cfg().start_trig_in))
    }

    /// Sets the start trigger input terminal of device `name`.
    pub fn dev_set_start_trig_in(&mut self, name: &str, term: Option<String>) -> (r: Result<(), StreamError>)
        requires
            old(self).wf(),
        ensures
            final(self).wf(),
            r.is_err() <==> !old(self).has_dev(name@),
            r.is_err() ==> dev_missing(r, name@, old(self).dev_names()) && *final(self)
                == *old(self),
            r.is_ok() ==> {
                let i = old(self).dev_at(name@);
                &&& old(self).only_dev_changed(*final(self), i)
                &&& final(self).fresh == old(self).fresh
                &&& old(self).devs@[i].hw_replaced_into(
                    final(self).devs@[i],
                    (HwCfg { start_trig_in: term, ..old(self).devs@[i].spec_hw_cfg() }),
                )
            },
    {
        let i = self.assert_has_dev(name)?;
        proof {
            self.lemma_dev_unique(i as int, name@);
        }
        let mut cfg = clone_hw_cfg(self.devs[i].hw_cfg());
        cfg.start_trig_in = term;
        self.replace_hw_cfg(i, cfg);
        Ok(())
    }

    /// Reads the export terminal of the start trigger of device `name`.
    pub fn dev_get_start_trig_out(&self, name: &str) -> (r: Result<Option<String>, StreamError>)
        requires
            self.wf(),
        ensures
            !self.has_dev(name@) ==> dev_missing(r, name@, self.dev_names()),
            self.has_dev(name@) ==> r == Ok::<Option<String>, StreamError>(
                self.devs@[self.dev_at(name@)].spec_hw_cfg().start_trig_out,
            ),
    {
        let i = self.assert_has_dev(name)?;
        proof {
            self.lemma_dev_unique(i as int, name@);
        }
        Ok(clone_opt_string(&self.devs[i].hw_cfg().start_trig_out))
    }

    /// Sets the export terminal of the start trigger of device `name`.
    pub fn dev_set_start_trig_out(&mut self, name: &str, term: Option<String>) -> (r: Result<(), StreamError>)
        requires
            old(self).wf(),
        ensures
            final(self).wf(),
            r.is_err() <==> !old(self).has_dev(name@),
            r.is_err() ==> dev_missing(r, name@, old(self).dev_names()) && *final(self)
                == *old(self),
            r.is_ok() ==> {
                let i = old(self).dev_at(name@);
                &&& old(self).only_dev_changed(*final(self), i)
                &&& final(self).fresh == old(self).fresh
                &&& old(self).devs@[i].hw_replaced_into(
                    final(self).devs@[i],
                    (HwCfg { start_trig_out: term, ..old(self).devs@[i].spec_hw_cfg() }),
                )
            },
    {
        let i = self.assert_has_dev(name)?;
        proof {
            self.lemma_dev_unique(i as int, name@);
        }
        let mut cfg = clone_hw_cfg(self.devs[i].hw_cfg());
        cfg.start_trig_out = term;
        self.replace_hw_cfg(i, cfg);
        Ok(())
    }

    /// Reads the sample clock input terminal of device `name`.
    pub fn dev_get_samp_clk_in(&self, name: &str) -> (r: Result<Option<String>, StreamError>)
        requires
            self.wf(),
        ensures
            !self.has_dev(name@) ==> dev_missing(r, name@, self.dev_names()),
            self.has_dev(name@) ==> r == Ok::<Option<String>, StreamError>(
                self.devs@[self.dev_at(name@)].spec_hw_cfg().samp_clk_in,
            ),
    {
        let i = self.assert_has_dev(name)?;
        proof {
            self.lemma_dev_unique(i as int, name@);
        }
        Ok(clone_opt_string(&self.devs[i].hw_cfg().samp_clk_in))
    }

    /// Sets the sample clock input terminal of device `name`.
    pub fn dev_set_samp_clk_in(&mut self, name: &str, term: Option<String>) -> (r: Result<(), StreamError>)
        requires
            old(self).wf(),
        ensures
            final(self).wf(),
            r.is_err() <==> !old(self).has_dev(name@),
            r.is_err() ==> dev_missing(r, name@, old(self).dev_names()) && *final(self)
                == *old(self),
            r.is_ok() ==> {
                let i = old(self).dev_at(name@);
                &&& old(self).only_dev_changed(*final(self), i)
                &&& final(self).fresh == old(self).fresh
                &&& old(self).devs@[i].hw_replaced_into(
                    final(self).devs@[i],
                    (HwCfg { samp_clk_in: term, ..old(self).devs@[i].spec_hw_cfg() }),
                )
            },
    {
        let i = self.assert_has_dev(name)?;
        proof {
            self.lemma_dev_unique(i as int, name@);
        }
        let mut cfg = clone_hw_cfg(self.devs[i].hw_cfg());
        cfg.samp_clk_in = term;
        self.replace_hw_cfg(i, cfg);
        Ok(())
    }

    /// Reads the export terminal of the sample clock of device `name`.
    pub fn dev_get_samp_clk_out(&self, name: &str) -> (r: Result<Option<String>, StreamError>)
        requires
            self.wf(),
        ensures
            !self.has_dev(name@) ==> dev_missing(r, name@, self.dev_names()),
            self.has_dev(name@) ==> r == Ok::<Option<String>, StreamError>(
                self.devs@[self.dev_at(name@)].spec_hw_cfg().samp_clk_out,
            ),
    {
        let i = self.assert_has_dev(name)?;
        proof {
            self.lemma_dev_unique(i as int, name@);
        }
        Ok(clone_opt_string(&self.devs[i].hw_cfg().samp_clk_out))
    }

    /// Sets the export terminal of the sample clock of device `name`.
    pub fn dev_set_samp_clk_out(&mut self, name: &str, term: Option<String>) -> (r: Result<(), StreamError>)
        requires
            old(self).wf(),
        ensures
            final(self).wf(),
            r.is_err() <==> !old(self).has_dev(name@),
            r.is_err() ==> dev_missing(r, name@, old(self).dev_names()) && *final(self)
                == *old(self),
            r.is_ok() ==> {
                let i = old(self).dev_at(name@);
                &&& old(self).only_dev_changed(*final(self), i)
                &&& final(self).fresh == old(self).fresh
                &&& old(self).devs@[i].hw_replaced_into(
                    final(self).devs@[i],
                    (HwCfg { samp_clk_out: term, ..old(self).devs@[i].spec_hw_cfg() }),
                )
            },
    {
        let i = self.assert_has_dev(name)?;
        proof {
            self.lemma_dev_unique(i as int, name@);
        }
        let mut cfg = clone_hw_cfg(self.devs[i].hw_cfg());
        cfg.samp_clk_out = term;
        self.replace_hw_cfg(i, cfg);
        Ok(())
    }

    /// Reads the reference clock input terminal of device `name`.
    pub fn dev_get_ref_clk_in(&self, name: &str) -> (r: Result<Option<String>, StreamError>)
        requires
            self.wf(),
        ensures
            !self.has_dev(name@) ==> dev_missing(r, name@, self.dev_names()),
            self.has_dev(name@) ==> r == Ok::<Option<String>, StreamError>(
                self.devs@[self.dev_at(name@)].spec_hw_cfg().ref_clk_in,
            ),
    {
        let i = self.assert_has_dev(name)?;
        proof {
            self.lemma_dev_unique(i as int, name@);
        }
        Ok(clone_opt_string(&self.devs[i].hw_cfg().ref_clk_in))
    }

    /// Sets the reference clock input terminal of device `name`.
    pub fn dev_set_ref_clk_in(&mut self, name: &str, term: Option<String>) -> (r: Result<(), StreamError>)
        requires
            old(self).wf(),
        ensures
            final(self).wf(),
            r.is_err() <==> !old(self).has_dev(name@),
            r.is_err() ==> dev_missing(r, name@, old(self).dev_names()) && *final(self)
                == *old(self),
            r.is_ok() ==> {
                let i = old(self).dev_at(name@);
                &&& old(self).only_dev_changed(*final(self), i)
                &&& final(self).fresh == old(self).fresh
                &&& old(self).devs@[i].hw_replaced_into(
                    final(self).devs@[i],
                    (HwCfg { ref_clk_in: term, ..old(self).devs@[i].spec_hw_cfg() }),
                )
            },
    {
        let i = self.assert_has_dev(name)?;
        proof {
            self.lemma_dev_unique(i as int, name@);
        }
        let mut cfg = clone_hw_cfg(self.devs[i].hw_cfg());
        cfg.ref_clk_in = term;
        self.replace_hw_cfg(i, cfg);
        Ok(())
    }

    /// Reads the least timeout of a buffer write, in nanoseconds of device `name`.
    pub fn dev_get_min_bufwrite_timeout(&self, name: &str) -> (r: Result<Option<u64>, StreamError>)
        requires
            self.wf(),
        ensures
            !self.has_dev(name@) ==> dev_missing(r, name@, self.dev_names()),
            self.has_dev(name@) ==> r == Ok::<Option<u64>, StreamError>(
                self.devs@[self.dev_at(name@)].spec_hw_cfg().min_bufwrite_timeout,
            ),
    {
        let i = self.assert_has_dev(name)?;
        proof {
            self.lemma_dev_unique(i as int, name@);
        }
        Ok(self.devs[i].hw_cfg().min_bufwrite_timeout)
    }

    /// Sets the least timeout of a buffer write, in nanoseconds of device `name`.
    pub fn dev_set_min_bufwrite_timeout(&mut self, name: &str, min_timeout: Option<u64>) -> (r: Result<(), StreamError>)
        requires
            old(self).wf(),
        ensures
            final(self).wf(),
            r.is_err() <==> !old(self).has_dev(name@),
            r.is_err() ==> dev_missing(r, name@, old(self).dev_names()) && *final(self)
                == *old(self),
            r.is_ok() ==> {
                let i = old(self).dev_at(name@);
                &&& old(self).only_dev_changed(*final(self), i)
                &&& final(self).fresh == old(self).fresh
                &&& old(self).devs@[i].hw_replaced_into(
                    final(self).devs@[i],
                    (HwCfg { min_bufwrite_timeout: min_timeout, ..old(self).devs@[i].spec_hw_cfg() }),
                )
            },
    {
        let i = self.assert_has_dev(name)?;
        proof {
            self.lemma_dev_unique(i as int, name@);
        }
        let mut cfg = clone_hw_cfg(self.devs[i].hw_cfg());
        cfg.min_bufwrite_timeout = min_timeout;
        self.replace_hw_cfg(i, cfg);
        Ok(())
    }
}

/// Compiling the whole streamer twice against the same stop time, with no
/// edit in between, leaves every channel of every device as the first
/// compile left it: the same resolved timelines, hence the same samples for
/// any window.
pub proof fn lemma_streamer_compile_idempotent(a: StreamerWrap, b: StreamerWrap, c: StreamerWrap, stop: u64)
    requires
        a.devs@.len() == b.devs@.len(),
        b.devs@.len() == c.devs@.len(),
        forall|i: int| 0 <= i < a.devs@.len() ==> a.devs@[i].compiled_into(#[trigger] b.devs@[i], stop),
        forall|i: int| 0 <= i < b.devs@.len() ==> b.devs@[i].compiled_into(#[trigger] c.devs@[i], stop),
    ensures
        forall|i: int|
            0 <= i < c.devs@.len() ==> match (#[trigger] b.devs@[i], c.devs@[i]) {
                (NIDev::AO(x), NIDev::AO(y)) => y.chans@ == x.chans@,
                (NIDev::DO(x), NIDev::DO(y)) => y.chans@ == x.chans@,
                _ => false,
            },
{
    assert forall|i: int| 0 <= i < c.devs@.len() implies match (#[trigger] b.devs@[i], c.devs@[i]) {
        (NIDev::AO(x), NIDev::AO(y)) => y.chans@ == x.chans@,
        (NIDev::DO(x), NIDev::DO(y)) => y.chans@ == x.chans@,
        _ => false,
    } by {
        assert(a.devs@[i].compiled_into(b.devs@[i], stop));
        assert(b.devs@[i].compiled_into(c.devs@[i], stop));
        match (a.devs@[i], b.devs@[i], c.devs@[i]) {
            (NIDev::AO(x), NIDev::AO(y), NIDev::AO(z)) => {
                assert(z.chans@ =~= y.chans@);
            },
            (NIDev::DO(x), NIDev::DO(y), NIDev::DO(z)) => {
                assert(z.chans@ =~= y.chans@);
            },
            _ => {},
        }
    }
}

} // verus!
