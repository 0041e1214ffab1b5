//! A device of either kind, analog or digital, behind one interface.
use vstd::prelude::*;

use crate::device::{lemma_sample_period_bounded, max_end, Device, HwCfg, NS_PER_S};
use crate::error::StreamError;
use crate::names::{ao_name, ao_name_text, do_name, do_name_text};

verus! {

/// A device drives either analog lines (values in microvolts) or digital
/// lines, never both.
pub enum NIDev {
    AO(Device<i64>),
    DO(Device<bool>),
}

impl NIDev {
    pub open spec fn wf(&self) -> bool {
        match *self {
            NIDev::AO(d) => d.wf() && forall|j: int|
                0 <= j < d.chans@.len() ==> (#[trigger] d.chans@[j]).key.1 == 0 && d.chans@[j].name@
                    == ao_name(d.chans@[j].key.0 as nat),
            NIDev::DO(d) => d.wf() && forall|j: int|
                0 <= j < d.chans@.len() ==> (#[trigger] d.chans@[j]).name@ == do_name(
                    d.chans@[j].key.0 as nat,
                    d.chans@[j].key.1 as nat,
                ),
        }
    }

    pub open spec fn spec_name(&self) -> Seq<char> {
        match *self {
            NIDev::AO(d) => d.name@,
            NIDev::DO(d) => d.name@,
        }
    }

    pub open spec fn spec_last_end(&self) -> int {
        match *self {
            NIDev::AO(d) => max_end(d.chans@),
            NIDev::DO(d) => max_end(d.chans@),
        }
    }

    pub open spec fn spec_compilable(&self, stop: u64) -> bool {
        match *self {
            NIDev::AO(d) => d.compilable(stop),
            NIDev::DO(d) => d.compilable(stop),
        }
    }

    pub open spec fn spec_samp_rate(&self) -> u64 {
        match *self {
            NIDev::AO(d) => d.samp_rate,
            NIDev::DO(d) => d.samp_rate,
        }
    }

    /// `new` is this device compiled against `stop`.
    pub open spec fn compiled_into(&self, new: NIDev, stop: u64) -> bool {
        match (*self, new) {
            (NIDev::AO(a), NIDev::AO(b)) => a.compiled_into(b, stop),
            (NIDev::DO(a), NIDev::DO(b)) => a.compiled_into(b, stop),
            _ => false,
        }
    }

    /// `new` is this device with the reset instruction at `reset` applied.
    pub open spec fn reset_into(&self, new: NIDev, reset: u64) -> bool {
        match (*self, new) {
            (NIDev::AO(a), NIDev::AO(b)) => a.reset_into(b, reset),
            (NIDev::DO(a), NIDev::DO(b)) => a.reset_into(b, reset),
            _ => false,
        }
    }

    /// `new` is this device with its compiled state discarded.
    pub open spec fn cleared_into(&self, new: NIDev) -> bool {
        match (*self, new) {
            (NIDev::AO(a), NIDev::AO(b)) => a.cleared_into(b),
            (NIDev::DO(a), NIDev::DO(b)) => a.cleared_into(b),
            _ => false,
        }
    }

    pub fn name(&self) -> (r: &String)
        ensures
            r@ == self.spec_name(),
    {
        match self {
            NIDev::AO(d) => &d.name,
            NIDev::DO(d) => &d.name,
        }
    }

    pub fn last_instr_end_time(&self) -> (r: u64)
        requires
            self.wf(),
        ensures
            r == self.spec_last_end(),
    {
        match self {
            NIDev::AO(d) => d.last_instr_end_time(),
            NIDev::DO(d) => d.last_instr_end_time(),
        }
    }

    pub fn samp_rate(&self) -> (r: u64)
        ensures
            r == self.spec_samp_rate(),
    {
        match self {
            NIDev::AO(d) => d.samp_rate,
            NIDev::DO(d) => d.samp_rate,
        }
    }

    pub fn can_compile(&self, stop: u64) -> (r: bool)
        requires
            self.wf(),
        ensures
            r == self.spec_compilable(stop),
    {
        match self {
            NIDev::AO(d) => d.can_compile(stop),
            NIDev::DO(d) => d.can_compile(stop),
        }
    }

    pub fn compile(&mut self, stop: u64)
        requires
            old(self).wf(),
            old(self).spec_compilable(stop),
        ensures
            final(self).wf(),
            old(self).compiled_into(*final(self), stop),
    {
        match self {
            NIDev::AO(d) => {
                let _ = d.compile(stop);
            },
            NIDev::DO(d) => {
                let _ = d.compile(stop);
            },
        }
    }

    pub fn add_reset_instr(&mut self, reset: u64)
        requires
            old(self).wf(),
            old(self).spec_last_end() <= reset,
            reset + NS_PER_S <= u64::MAX,
        ensures
            final(self).wf(),
            old(self).reset_into(*final(self), reset),
    {
        proof {
            lemma_sample_period_bounded(self.spec_samp_rate());
        }
        match self {
            NIDev::AO(d) => d.add_reset_instr(reset),
            NIDev::DO(d) => d.add_reset_instr(reset),
        }
    }

    pub fn clear_edit_cache(&mut self)
        requires
            old(self).wf(),
        ensures
            final(self).wf(),
            old(self).cleared_into(*final(self)),
    {
        match self {
            NIDev::AO(d) => d.clear_edit_cache(),
            NIDev::DO(d) => d.clear_edit_cache(),
        }
    }
}

impl NIDev {
    pub open spec fn spec_hw_cfg(&self) -> HwCfg {
        match *self {
            NIDev::AO(d) => d.hw_cfg,
            NIDev::DO(d) => d.hw_cfg,
        }
    }

    pub open spec fn spec_chan_count(&self) -> int {
        match *self {
            NIDev::AO(d) => d.chans@.len() as int,
            NIDev::DO(d) => d.chans@.len() as int,
        }
    }

    /// The driver's name of channel `j`.
    pub open spec fn chan_name_of(&self, j: int) -> Seq<char> {
        match *self {
            NIDev::AO(d) => ao_name(d.chans@[j].key.0 as nat),
            NIDev::DO(d) => do_name(d.chans@[j].key.0 as nat, d.chans@[j].key.1 as nat),
        }
    }

    pub open spec fn has_named_chan(&self, name: Seq<char>) -> bool {
        exists|j: int| 0 <= j < self.spec_chan_count() && #[trigger] self.chan_name_of(j) == name
    }

    pub open spec fn chan_last_end(&self, j: int) -> int {
        match *self {
            NIDev::AO(d) => d.chans@[j].spec_last_end(),
            NIDev::DO(d) => d.chans@[j].spec_last_end(),
        }
    }

    /// `new` is this device with channel `j`'s compiled state discarded.
    pub open spec fn chan_cleared_into(&self, new: NIDev, j: int) -> bool {
        match (*self, new) {
            (NIDev::AO(a), NIDev::AO(b)) => a.only_chan_changed(b, j) && b.chans@[j]
                == a.chans@[j].spec_cleared(),
            (NIDev::DO(a), NIDev::DO(b)) => a.only_chan_changed(b, j) && b.chans@[j]
                == a.chans@[j].spec_cleared(),
            _ => false,
        }
    }

    /// `new` is this device with its hardware settings replaced by `cfg`.
    pub open spec fn hw_replaced_into(&self, new: NIDev, cfg: HwCfg) -> bool {
        match (*self, new) {
            (NIDev::AO(a), NIDev::AO(b)) => b.name == a.name && b.samp_rate == a.samp_rate
                && b.chans == a.chans && b.hw_cfg == cfg,
            (NIDev::DO(a), NIDev::DO(b)) => b.name == a.name && b.samp_rate == a.samp_rate
                && b.chans == a.chans && b.hw_cfg == cfg,
            _ => false,
        }
    }

    pub fn hw_cfg(&self) -> (r: &HwCfg)
        ensures
            *r == self.spec_hw_cfg(),
    {
        match self {
            NIDev::AO(d) => &d.hw_cfg,
            NIDev::DO(d) => &d.hw_cfg,
        }
    }

    /// Position of the channel the driver calls `name`, if there is one.
    pub fn chan_by_name(&self, name: &str) -> (r: Option<usize>)
        ensures
            r matches Some(j) ==> j < self.spec_chan_count() && self.chan_name_of(j as int) == name@,
            r.is_none() <==> !self.has_named_chan(name@),
    {
        let target = name.to_owned();
        let n = match self {
            NIDev::AO(d) => d.chans.len(),
            NIDev::DO(d) => d.chans.len(),
        };
        let mut j: usize = 0;
        while j < n
            invariant
                n == self.spec_chan_count(),
                target@ == name@,
                j <= n,
                forall|k: int| 0 <= k < j ==> #[trigger] self.chan_name_of(k) != name@,
            decreases n - j,
        {
            let text = match self {
                NIDev::AO(d) => ao_name_text(d.chans[j].key.0),
                NIDev::DO(d) => do_name_text(d.chans[j].key.0, d.chans[j].key.1),
            };
            if text == target {
                assert(self.chan_name_of(j as int) == name@);
                return Some(j);
            }
            j = j + 1;
        }
        None
    }
}

pub(crate) fn clone_opt_string(o: &Option<String>) -> (r: Option<String>)
    ensures
        r == *o,
{
    match o {
        Some(s) => Some(s.clone()),
        None => None,
    }
}

pub(crate) fn clone_hw_cfg(c: &HwCfg) -> (r: HwCfg)
    ensures
        r == *c,
{
    HwCfg {
        start_trig_in: clone_opt_string(&c.start_trig_in),
        start_trig_out: clone_opt_string(&c.start_trig_out),
        samp_clk_in: clone_opt_string(&c.samp_clk_in),
        samp_clk_out: clone_opt_string(&c.samp_clk_out),
        ref_clk_in: clone_opt_string(&c.ref_clk_in),
        min_bufwrite_timeout: c.min_bufwrite_timeout,
    }
}

impl NIDev {
    pub open spec fn spec_window_fails(&self, n: usize, t0: u64, t1: u64) -> bool {
        match *self {
            NIDev::AO(d) => d.window_fails(n, t0, t1),
            NIDev::DO(d) => d.window_fails(n, t0, t1),
        }
    }

    /// The device's next buffer holds `n` samples of `[t0, t1)` per channel.
    pub open spec fn spec_buf_holds(&self, n: usize, t0: u64, t1: u64) -> bool {
        match *self {
            NIDev::AO(d) => d.is_window_buf(d.next_buf@, n, t0, t1),
            NIDev::DO(d) => d.is_window_buf(d.next_buf@, n, t0, t1),
        }
    }

    /// The buffer last handed to the hardware holds `n` samples of
    /// `[t0, t1)` per channel.
    pub open spec fn spec_cur_holds(&self, n: usize, t0: u64, t1: u64) -> bool {
        match *self {
            NIDev::AO(d) => d.is_window_buf(d.cur_buf@, n, t0, t1),
            NIDev::DO(d) => d.is_window_buf(d.cur_buf@, n, t0, t1),
        }
    }

    /// `new` holds the same current buffer as this device.
    pub open spec fn same_cur(&self, new: NIDev) -> bool {
        match (*self, new) {
            (NIDev::AO(a), NIDev::AO(b)) => b.cur_buf == a.cur_buf,
            (NIDev::DO(a), NIDev::DO(b)) => b.cur_buf == a.cur_buf,
            _ => false,
        }
    }

    /// `new` is this device after handing its computed buffer over.
    pub open spec fn handed_into(&self, new: NIDev) -> bool {
        match (*self, new) {
            (NIDev::AO(a), NIDev::AO(b)) => b.cur_buf == a.next_buf,
            (NIDev::DO(a), NIDev::DO(b)) => b.cur_buf == a.next_buf,
            _ => false,
        }
    }

    pub fn hand_over(&mut self)
        requires
            old(self).wf(),
        ensures
            final(self).wf(),
            old(self).same_but_buf(*final(self)),
            old(self).handed_into(*final(self)),
    {
        match self {
            NIDev::AO(d) => d.hand_over(),
            NIDev::DO(d) => d.hand_over(),
        }
    }

    /// `new` differs from this device at most in its buffers.
    pub open spec fn same_but_buf(&self, new: NIDev) -> bool {
        match (*self, new) {
            (NIDev::AO(a), NIDev::AO(b)) => b.name == a.name && b.samp_rate == a.samp_rate
                && b.chans == a.chans && b.hw_cfg == a.hw_cfg,
            (NIDev::DO(a), NIDev::DO(b)) => b.name == a.name && b.samp_rate == a.samp_rate
                && b.chans == a.chans && b.hw_cfg == a.hw_cfg,
            _ => false,
        }
    }

    pub fn fill_next_buf(&mut self, n: usize, t0: u64, t1: u64) -> (r: Result<(), StreamError>)
        requires
            old(self).wf(),
        ensures
            final(self).wf(),
            old(self).same_but_buf(*final(self)),
            old(self).same_cur(*final(self)),
            r.is_err() <==> old(self).spec_window_fails(n, t0, t1),
            r.is_err() ==> r == Err::<(), StreamError>(StreamError::Value),
            r.is_ok() ==> final(self).spec_buf_holds(n, t0, t1),
    {
        match self {
            NIDev::AO(d) => d.fill_next_buf(n, t0, t1),
            NIDev::DO(d) => d.fill_next_buf(n, t0, t1),
        }
    }
}

/// The latest end of a last instruction over the devices `s`, 0 for none.
pub open spec fn max_dev_end(s: Seq<NIDev>) -> int
    decreases s.len(),
{
    if s.len() == 0 {
        0
    } else {
        let rest = max_dev_end(s.drop_last());
        let e = s.last().spec_last_end();
        if e > rest {
            e
        } else {
            rest
        }
    }
}

/// No device ends after the latest end over all of them.
pub proof fn lemma_max_dev_end_bounds(s: Seq<NIDev>)
    ensures
        forall|i: int| 0 <= i < s.len() ==> (#[trigger] s[i]).spec_last_end() <= max_dev_end(s),
    decreases s.len(),
{
    if s.len() > 0 {
        lemma_max_dev_end_bounds(s.drop_last());
        assert forall|i: int| 0 <= i < s.len() implies (#[trigger] s[i]).spec_last_end()
            <= max_dev_end(s) by {
            if i < s.len() - 1 {
                assert(s.drop_last()[i] == s[i]);
            }
        }
    }
}

} // verus!
