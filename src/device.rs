//! A device: one sample rate shared by channels of one kind, sorted by name,
//! and the hardware routing settings handed to the driver.
use vstd::prelude::*;

use crate::channel::{fixed_end, Channel, Func, Instr};
use crate::error::StreamError;
use crate::names::{
    compare_names, lemma_name_lt_asymmetric, lemma_name_lt_transitive, name_lt,
};

verus! {

/// Routing and timing settings passed through to the driver unchecked.
/// Terminals are driver terminal names; the timeout is in nanoseconds.
pub struct HwCfg {
    pub start_trig_in: Option<String>,
    pub start_trig_out: Option<String>,
    pub samp_clk_in: Option<String>,
    pub samp_clk_out: Option<String>,
    pub ref_clk_in: Option<String>,
    pub min_bufwrite_timeout: Option<u64>,
}

impl HwCfg {
    pub open spec fn is_unset(&self) -> bool {
        &&& self.start_trig_in.is_none()
        &&& self.start_trig_out.is_none()
        &&& self.samp_clk_in.is_none()
        &&& self.samp_clk_out.is_none()
        &&& self.ref_clk_in.is_none()
        &&& self.min_bufwrite_timeout.is_none()
    }

    pub fn new() -> (r: Self)
        ensures
            r.is_unset(),
    {
        HwCfg {
            start_trig_in: None,
            start_trig_out: None,
            samp_clk_in: None,
            samp_clk_out: None,
            ref_clk_in: None,
            min_bufwrite_timeout: None,
        }
    }
}

/// The largest last end over the channels `s`, 0 for none.
pub open spec fn max_end<V: Copy>(s: Seq<Channel<V>>) -> int
    decreases s.len(),
{
    if s.len() == 0 {
        0
    } else {
        let rest = max_end(s.drop_last());
        let e = s.last().spec_last_end();
        if e > rest {
            e
        } else {
            rest
        }
    }
}

/// A device: channels of one value type, sorted by name, sharing one sample
/// rate (samples per second).
pub struct Device<V> {
    pub name: String,
    pub samp_rate: u64,
    pub chans: Vec<Channel<V>>,
    pub hw_cfg: HwCfg,
    /// The samples computed for the next buffer of a run, one vector per
    /// channel in channel order.
    pub next_buf: Vec<Vec<V>>,
    /// The buffer last handed to the hardware, one vector per channel.
    pub cur_buf: Vec<Vec<V>>,
}

impl<V: Copy> Device<V> {
    pub open spec fn wf(&self) -> bool {
        &&& forall|i: int| 0 <= i < self.chans@.len() ==> (#[trigger] self.chans@[i]).wf()
        &&& forall|i: int|
            0 <= i < self.chans@.len() ==> (#[trigger] self.chans@[i]).samp_rate == self.samp_rate
        &&& forall|i: int, j: int|
            0 <= i < j < self.chans@.len() ==> name_lt(
                (#[trigger] self.chans@[i]).name@,
                (#[trigger] self.chans@[j]).name@,
            ) && self.chans@[i].key != self.chans@[j].key
    }

    pub open spec fn has_name(&self, name: Seq<char>) -> bool {
        exists|i: int| 0 <= i < self.chans@.len() && (#[trigger] self.chans@[i]).name@ == name
    }

    /// Position of the channel named `name`, if there is one.
    pub fn name_pos(&self, name: &str) -> (r: Option<usize>)
        ensures
            r matches Some(i) ==> i < self.chans@.len() && self.chans@[i as int].name@ == name@,
            r.is_none() <==> !self.has_name(name@),
    {
        let target = name.to_owned();
        let n = self.chans.len();
        let mut i: usize = 0;
        while i < n
            invariant
                n == self.chans@.len(),
                target@ == name@,
                i <= n,
                forall|j: int| 0 <= j < i ==> (#[trigger] self.chans@[j]).name@ != name@,
            decreases n - i,
        {
            if self.chans[i].name == target {
                return Some(i);
            }
            i = i + 1;
        }
        None
    }

    pub open spec fn has_key(&self, key: (usize, usize)) -> bool {
        exists|i: int| 0 <= i < self.chans@.len() && (#[trigger] self.chans@[i]).key == key
    }

    pub fn new(name: &str, samp_rate: u64) -> (r: Self)
        ensures
            r.wf(),
            r.name@ == name@,
            r.samp_rate == samp_rate,
            r.chans@.len() == 0,
            r.hw_cfg.is_unset(),
    {
        Device {
            name: name.to_owned(),
            samp_rate,
            chans: Vec::new(),
            hw_cfg: HwCfg::new(),
            next_buf: Vec::new(),
            cur_buf: Vec::new(),
        }
    }

    pub fn samp_rate(&self) -> (r: u64)
        ensures
            r == self.samp_rate,
    {
        self.samp_rate
    }

    /// Registers `chan`, keeping the channels sorted by name; fails when a
    /// channel of the same name is already there.
    pub fn add_chan_sort(&mut self, chan: Channel<V>) -> (r: Result<(), StreamError>)
        requires
            old(self).wf(),
            chan.wf(),
            chan.samp_rate == old(self).samp_rate,
            forall|i: int|
                0 <= i < old(self).chans@.len() && (#[trigger] old(self).chans@[i]).key == chan.key
                    ==> old(self).chans@[i].name@ == chan.name@,
        ensures
            final(self).wf(),
            final(self).name == old(self).name,
            final(self).samp_rate == old(self).samp_rate,
            final(self).hw_cfg == old(self).hw_cfg,
            final(self).next_buf == old(self).next_buf,
            r.is_err() <==> old(self).has_name(chan.name@),
            r.is_err() ==> r == Err::<(), StreamError>(StreamError::DuplicateChannel) && *final(self)
                == *old(self),
            r.is_ok() ==> exists|p: int|
                0 <= p <= old(self).chans@.len() && final(self).chans@ == old(self).chans@.insert(
                    p,
                    chan,
                ),
    {
        let n = self.chans.len();
        let ghost s = self.chans@;
        let ghost nm = chan.name@;
        let mut p: usize = 0;
        let mut i: usize = 0;
        while i < n
            invariant
                s == self.chans@,
                *self == *old(self),
                self.wf(),
                n == s.len(),
                nm == chan.name@,
                p <= i <= n,
                forall|j: int| 0 <= j < i ==> (#[trigger] s[j]).name@ != nm,
                forall|j: int| 0 <= j < p ==> name_lt((#[trigger] s[j]).name@, nm),
                forall|j: int| p <= j < i ==> name_lt(nm, (#[trigger] s[j]).name@),
            decreases n - i,
        {
            let c = compare_names(self.chans[i].name.as_str(), chan.name.as_str());
            if c == 0 {
                return Err(StreamError::DuplicateChannel);
            }
            if c == -1 {
                proof {
                    if p < i {
                        assert(name_lt(s[p as int].name@, s[i as int].name@));
                        lemma_name_lt_transitive(nm, s[p as int].name@, s[i as int].name@);
                        lemma_name_lt_asymmetric(nm, s[i as int].name@);
                    }
                }
                p = i + 1;
            }
            i = i + 1;
        }
        proof {
            assert forall|j: int| 0 <= j < n implies (#[trigger] s[j]).key != chan.key by {
                assert(s[j].name@ != nm);
            }
        }
        self.chans.insert(p, chan);
        proof {
            let s2 = self.chans@;
            assert forall|a: int| 0 <= a < s2.len() implies (#[trigger] s2[a]).wf()
                && s2[a].samp_rate == self.samp_rate by {
                if a < p {
                    assert(s2[a] == s[a]);
                } else if a > p {
                    assert(s2[a] == s[a - 1]);
                }
            }
            assert forall|a: int, b: int| 0 <= a < b < s2.len() implies name_lt(
                (#[trigger] s2[a]).name@,
                (#[trigger] s2[b]).name@,
            ) && s2[a].key != s2[b].key by {
                if a < p && b < p {
                    assert(s2[a] == s[a] && s2[b] == s[b]);
                } else if a < p && b == p {
                    assert(s2[a] == s[a]);
                } else if a < p {
                    assert(s2[a] == s[a] && s2[b] == s[b - 1]);
                } else if a == p {
                    assert(s2[b] == s[b - 1]);
                } else {
                    assert(s2[a] == s[a - 1] && s2[b] == s[b - 1]);
                }
            }
        }
        Ok(())
    }

    /// The latest end of a last instruction over all channels; 0 without any.
    pub fn last_instr_end_time(&self) -> (r: u64)
        requires
            self.wf(),
        ensures
            r == max_end(self.chans@),
    {
        let n = self.chans.len();
        let mut best: u64 = 0;
        let mut i: usize = 0;
        while i < n
            invariant
                self.wf(),
                n == self.chans@.len(),
                i <= n,
                best == max_end(self.chans@.subrange(0, i as int)),
            decreases n - i,
        {
            let e = self.chans[i].last_instr_end_time();
            proof {
                assert(self.chans@.subrange(0, i + 1).drop_last() == self.chans@.subrange(
                    0,
                    i as int,
                ));
            }
            if e > best {
                best = e;
            }
            i = i + 1;
        }
        proof {
            assert(self.chans@.subrange(0, n as int) == self.chans@);
        }
        best
    }

    /// Discards the compiled state of every channel.
    pub fn clear_edit_cache(&mut self)
        requires
            old(self).wf(),
        ensures
            final(self).wf(),
            final(self).name == old(self).name,
            final(self).samp_rate == old(self).samp_rate,
            final(self).hw_cfg == old(self).hw_cfg,
            final(self).chans@.len() == old(self).chans@.len(),
            forall|i: int|
                0 <= i < old(self).chans@.len() ==> #[trigger] final(self).chans@[i] == old(self).chans@[i].spec_cleared(),
    {
        let n = self.chans.len();
        let mut i: usize = 0;
        while i < n
            invariant
                self.wf(),
                self.name == old(self).name,
                self.samp_rate == old(self).samp_rate,
                self.hw_cfg == old(self).hw_cfg,
                n == self.chans@.len(),
                n == old(self).chans@.len(),
                i <= n,
                forall|j: int| 0 <= j < i ==> #[trigger] self.chans@[j] == old(self).chans@[j].spec_cleared(),
                forall|j: int| i <= j < n ==> #[trigger] self.chans@[j] == old(self).chans@[j],
            decreases n - i,
        {
            self.chans[i].clear_edit_cache();
            i = i + 1;
        }
    }
}

/// Nanoseconds per second.
pub const NS_PER_S: u64 = 1_000_000_000;

/// One sample period of a device in nanoseconds, at least one (and one
/// for a device without a rate).
pub open spec fn sample_period(samp_rate: u64) -> u64 {
    if samp_rate == 0 || samp_rate >= NS_PER_S {
        1
    } else {
        (NS_PER_S / samp_rate) as u64
    }
}

/// The instruction that returns a line to its reset value at `reset`.
pub open spec fn reset_instr<V>(rst_val: V, reset: u64, eps: u64) -> Instr<V> {
    Instr { start: reset, dur: Some((eps, false)), func: Func::Const(rst_val) }
}

/// `new` is `old` with the reset instruction appended, unless an
/// instruction of `old` already starts at `reset`.
pub open spec fn reset_applied<V: Copy>(old: Channel<V>, new: Channel<V>, reset: u64, eps: u64) -> bool {
    if !old.takes_reset(reset) {
        new == old
    } else {
        &&& new.key == old.key
        &&& new.name == old.name
        &&& new.samp_rate == old.samp_rate
        &&& new.dflt_val == old.dflt_val
        &&& new.rst_val == old.rst_val
        &&& new.compiled.is_none()
        &&& new.instrs@ == old.instrs@.push(reset_instr(old.rst_val, reset, eps))
    }
}

/// No channel ends after the latest end over all of them.
pub proof fn lemma_max_end_bounds<V: Copy>(s: Seq<Channel<V>>)
    ensures
        forall|i: int| 0 <= i < s.len() ==> (#[trigger] s[i]).spec_last_end() <= max_end(s),
    decreases s.len(),
{
    if s.len() > 0 {
        lemma_max_end_bounds(s.drop_last());
        assert forall|i: int| 0 <= i < s.len() implies (#[trigger] s[i]).spec_last_end() <= max_end(
            s,
        ) by {
            if i < s.len() - 1 {
                assert(s.drop_last()[i] == s[i]);
            }
        }
    }
}

impl<V: Copy> Device<V> {
    /// Every channel can be compiled against `stop`.
    pub open spec fn compilable(&self, stop: u64) -> bool {
        forall|i: int|
            0 <= i < self.chans@.len() ==> (#[trigger] self.chans@[i]).spec_fixed_last_end() <= stop
    }

    pub fn can_compile(&self, stop: u64) -> (r: bool)
        requires
            self.wf(),
        ensures
            r == self.compilable(stop),
    {
        let n = self.chans.len();
        let mut i: usize = 0;
        while i < n
            invariant
                self.wf(),
                n == self.chans@.len(),
                i <= n,
                forall|j: int| 0 <= j < i ==> (#[trigger] self.chans@[j]).spec_fixed_last_end() <= stop,
            decreases n - i,
        {
            if self.chans[i].fixed_last_end_time() > stop {
                return false;
            }
            i = i + 1;
        }
        true
    }

    /// Compiles every channel against `stop`, or none of them when one
    /// cannot be.
    pub fn compile(&mut self, stop: u64) -> (r: Result<(), StreamError>)
        requires
            old(self).wf(),
        ensures
            final(self).wf(),
            final(self).name == old(self).name,
            final(self).samp_rate == old(self).samp_rate,
            final(self).hw_cfg == old(self).hw_cfg,
            final(self).chans@.len() == old(self).chans@.len(),
            r.is_ok() <==> old(self).compilable(stop),
            r.is_ok() ==> forall|i: int|
                0 <= i < old(self).chans@.len() ==> #[trigger] final(self).chans@[i] == old(self).chans@[i].spec_compiled(stop),
            r.is_err() ==> r == Err::<(), StreamError>(StreamError::Compile { stop }) && *final(self)
                == *old(self),
    {
        if !self.can_compile(stop) {
            return Err(StreamError::Compile { stop });
        }
        let n = self.chans.len();
        let mut i: usize = 0;
        while i < n
            invariant
                self.wf(),
                old(self).compilable(stop),
                self.name == old(self).name,
                self.samp_rate == old(self).samp_rate,
                self.hw_cfg == old(self).hw_cfg,
                n == self.chans@.len(),
                n == old(self).chans@.len(),
                i <= n,
                forall|j: int| 0 <= j < i ==> #[trigger] self.chans@[j] == old(self).chans@[j].spec_compiled(stop),
                forall|j: int| i <= j < n ==> #[trigger] self.chans@[j] == old(self).chans@[j],
            decreases n - i,
        {
            let _ = self.chans[i].compile(stop);
            i = i + 1;
        }
        Ok(())
    }

    /// Appends an instruction of one sample period at `reset` that drives
    /// the reset value to every channel in which no instruction starts at
    /// or after `reset`.
    pub fn add_reset_instr(&mut self, reset: u64)
        requires
            old(self).wf(),
            max_end(old(self).chans@) <= reset,
            reset + sample_period(old(self).samp_rate) <= u64::MAX,
        ensures
            final(self).wf(),
            final(self).name == old(self).name,
            final(self).samp_rate == old(self).samp_rate,
            final(self).hw_cfg == old(self).hw_cfg,
            final(self).chans@.len() == old(self).chans@.len(),
            forall|i: int|
                0 <= i < old(self).chans@.len() ==> reset_applied(
                    old(self).chans@[i],
                    #[trigger] final(self).chans@[i],
                    reset,
                    sample_period(old(self).samp_rate),
                ),
    {
        let eps: u64 = if self.samp_rate == 0 || self.samp_rate >= NS_PER_S {
            1
        } else {
            NS_PER_S / self.samp_rate
        };
        proof {
            lemma_max_end_bounds(old(self).chans@);
            if 0 < self.samp_rate < NS_PER_S {
                vstd::arithmetic::div_mod::lemma_div_by_multiple(1, self.samp_rate as int);
                vstd::arithmetic::div_mod::lemma_div_is_ordered(
                    self.samp_rate as int,
                    NS_PER_S as int,
                    self.samp_rate as int,
                );
            }
        }
        let n = self.chans.len();
        let mut i: usize = 0;
        while i < n
            invariant
                self.wf(),
                eps == sample_period(old(self).samp_rate),
                eps > 0,
                reset + eps <= u64::MAX,
                self.name == old(self).name,
                self.samp_rate == old(self).samp_rate,
                self.hw_cfg == old(self).hw_cfg,
                n == self.chans@.len(),
                n == old(self).chans@.len(),
                i <= n,
                forall|j: int|
                    0 <= j < n ==> (#[trigger] old(self).chans@[j]).spec_last_end() <= reset,
                forall|j: int|
                    0 <= j < i ==> reset_applied(
                        old(self).chans@[j],
                        #[trigger] self.chans@[j],
                        reset,
                        eps,
                    ),
                forall|j: int| i <= j < n ==> #[trigger] self.chans@[j] == old(self).chans@[j],
            decreases n - i,
        {
            if self.chans[i].takes_reset_exec(reset) {
                proof {
                    let c = self.chans@[i as int];
                    let s = c.instrs@;
                    if s.len() > 0 {
                        let l = s.len() - 1;
                        assert(fixed_end(s[l]) <= c.spec_last_end());
                    }
                }
                self.chans[i].append_reset(reset, eps);
            }
            i = i + 1;
        }
    }
}

/// One sample period lies between one nanosecond and one second.
pub proof fn lemma_sample_period_bounded(samp_rate: u64)
    ensures
        1 <= sample_period(samp_rate) <= NS_PER_S,
{
    if 0 < samp_rate < NS_PER_S {
        vstd::arithmetic::div_mod::lemma_div_by_multiple(1, samp_rate as int);
        vstd::arithmetic::div_mod::lemma_div_is_ordered(
            samp_rate as int,
            NS_PER_S as int,
            samp_rate as int,
        );
        vstd::arithmetic::div_mod::lemma_div_is_ordered_by_denominator(
            NS_PER_S as int,
            1,
            samp_rate as int,
        );
    }
}

impl<V: Copy> Device<V> {
    /// `new` is this device with every channel compiled against `stop`.
    pub open spec fn compiled_into(&self, new: Self, stop: u64) -> bool {
        &&& new.name == self.name
        &&& new.samp_rate == self.samp_rate
        &&& new.hw_cfg == self.hw_cfg
        &&& new.chans@.len() == self.chans@.len()
        &&& forall|i: int|
            0 <= i < self.chans@.len() ==> #[trigger] new.chans@[i] == self.chans@[i].spec_compiled(
                stop,
            )
    }

    /// `new` is this device with the reset instruction at `reset` applied.
    pub open spec fn reset_into(&self, new: Self, reset: u64) -> bool {
        &&& new.name == self.name
        &&& new.samp_rate == self.samp_rate
        &&& new.hw_cfg == self.hw_cfg
        &&& new.chans@.len() == self.chans@.len()
        &&& forall|i: int|
            0 <= i < self.chans@.len() ==> reset_applied(
                self.chans@[i],
                #[trigger] new.chans@[i],
                reset,
                sample_period(self.samp_rate),
            )
    }

    /// `new` is this device with every channel's compiled state discarded.
    pub open spec fn cleared_into(&self, new: Self) -> bool {
        &&& new.name == self.name
        &&& new.samp_rate == self.samp_rate
        &&& new.hw_cfg == self.hw_cfg
        &&& new.chans@.len() == self.chans@.len()
        &&& forall|i: int|
            0 <= i < self.chans@.len() ==> #[trigger] new.chans@[i] == self.chans@[i].spec_cleared()
    }

    /// `new` is this device with `chan` registered among its channels.
    pub open spec fn chan_added_into(&self, new: Self, chan: Channel<V>) -> bool {
        &&& new.name == self.name
        &&& new.samp_rate == self.samp_rate
        &&& new.hw_cfg == self.hw_cfg
        &&& new.next_buf == self.next_buf
        &&& exists|p: int|
            0 <= p <= self.chans@.len() && new.chans@ == self.chans@.insert(p, chan)
    }

    /// Position of the channel with key `key`, if there is one.
    pub fn chan_pos(&self, key: (usize, usize)) -> (r: Option<usize>)
        ensures
            r matches Some(i) ==> i < self.chans@.len() && self.chans@[i as int].key == key,
            r.is_none() <==> !self.has_key(key),
    {
        let n = self.chans.len();
        let mut i: usize = 0;
        while i < n
            invariant
                n == self.chans@.len(),
                i <= n,
                forall|j: int| 0 <= j < i ==> (#[trigger] self.chans@[j]).key != key,
            decreases n - i,
        {
            let k = self.chans[i].key;
            if k.0 == key.0 && k.1 == key.1 {
                return Some(i);
            }
            i = i + 1;
        }
        None
    }
}

impl<V: Copy> Device<V> {
    /// Only channel `j` may differ between this device and `new`.
    pub open spec fn only_chan_changed(&self, new: Self, j: int) -> bool {
        &&& new.name == self.name
        &&& new.samp_rate == self.samp_rate
        &&& new.hw_cfg == self.hw_cfg
        &&& new.next_buf == self.next_buf
        &&& new.chans@.len() == self.chans@.len()
        &&& forall|k: int|
            0 <= k < self.chans@.len() && k != j ==> #[trigger] new.chans@[k] == self.chans@[k]
    }

    /// Inserts an instruction that channel `j` accepts.
    pub fn chan_add_instr(&mut self, j: usize, func: Func<V>, t: u64, dur: Option<(u64, bool)>)
        requires
            old(self).wf(),
            j < old(self).chans@.len(),
            func.wf(),
            match dur {
                Some((d, _)) => t + d <= u64::MAX,
                None => true,
            },
            old(self).chans@[j as int].add_accepts((Instr { start: t, dur, func })),
        ensures
            final(self).wf(),
            old(self).only_chan_changed(*final(self), j as int),
            old(self).chans@[j as int].added_into(
                final(self).chans@[j as int],
                (Instr { start: t, dur, func }),
            ),
    {
        let _ = self.chans[j].add_instr(func, t, dur);
        proof {
            let s = self.chans@;
            assert forall|a: int, b: int| 0 <= a < b < s.len() implies name_lt(
                (#[trigger] s[a]).name@,
                (#[trigger] s[b]).name@,
            ) && s[a].key != s[b].key by {
                assert(name_lt(old(self).chans@[a].name@, old(self).chans@[b].name@));
                assert(old(self).chans@[a].key != old(self).chans@[b].key);
            }
        }
    }

    /// Discards the compiled state of channel `j`.
    pub fn chan_clear_edit_cache(&mut self, j: usize)
        requires
            old(self).wf(),
            j < old(self).chans@.len(),
        ensures
            final(self).wf(),
            old(self).only_chan_changed(*final(self), j as int),
            final(self).chans@[j as int] == old(self).chans@[j as int].spec_cleared(),
    {
        self.chans[j].clear_edit_cache();
        proof {
            let s = self.chans@;
            assert forall|a: int, b: int| 0 <= a < b < s.len() implies name_lt(
                (#[trigger] s[a]).name@,
                (#[trigger] s[b]).name@,
            ) && s[a].key != s[b].key by {
                assert(name_lt(old(self).chans@[a].name@, old(self).chans@[b].name@));
                assert(old(self).chans@[a].key != old(self).chans@[b].key);
            }
        }
    }
}

impl<V: Copy> Device<V> {
    /// Position of the channel keyed `key` (meaningful when there is one).
    pub open spec fn key_at(&self, key: (usize, usize)) -> int {
        choose|j: int| 0 <= j < self.chans@.len() && (#[trigger] self.chans@[j]).key == key
    }

    pub proof fn lemma_key_unique(&self, j: int, key: (usize, usize))
        requires
            self.wf(),
            0 <= j < self.chans@.len(),
            self.chans@[j].key == key,
        ensures
            self.has_key(key),
            self.key_at(key) == j,
    {
        let k = self.key_at(key);
        if k != j {
            if k < j {
                assert(self.chans@[k].key != self.chans@[j].key);
            } else {
                assert(self.chans@[j].key != self.chans@[k].key);
            }
        }
    }
}

impl<V: Copy> Device<V> {
    /// Sampling some channel over `[t0, t1)` with `n` samples fails.
    pub open spec fn window_fails(&self, n: usize, t0: u64, t1: u64) -> bool {
        exists|c: int|
            0 <= c < self.chans@.len() && (#[trigger] self.chans@[c]).nsamps_fails(
                n,
                Some(t0),
                Some(t1),
            )
    }

    /// `buf` holds, for every channel in order, its `n` samples of `[t0, t1)`.
    pub open spec fn is_window_buf(&self, buf: Seq<Vec<V>>, n: usize, t0: u64, t1: u64) -> bool {
        &&& buf.len() == self.chans@.len()
        &&& forall|c: int|
            0 <= c < self.chans@.len() ==> (#[trigger] self.chans@[c]).samples_of(
                buf[c]@,
                n,
                Some(t0),
                Some(t1),
            )
    }

    /// Computes the next buffer of a run: `n` samples of `[t0, t1)` for every
    /// channel. On failure the channels are left as they were.
    pub fn fill_next_buf(&mut self, n: usize, t0: u64, t1: u64) -> (r: Result<(), StreamError>)
        requires
            old(self).wf(),
        ensures
            final(self).wf(),
            final(self).name == old(self).name,
            final(self).samp_rate == old(self).samp_rate,
            final(self).hw_cfg == old(self).hw_cfg,
            final(self).chans == old(self).chans,
            r.is_err() <==> old(self).window_fails(n, t0, t1),
            r.is_err() ==> r == Err::<(), StreamError>(StreamError::Value),
            final(self).cur_buf == old(self).cur_buf,
            r.is_ok() ==> final(self).is_window_buf(final(self).next_buf@, n, t0, t1),
    {
        let mut buf: Vec<Vec<V>> = Vec::new();
        let k = self.chans.len();
        let mut c: usize = 0;
        while c < k
            invariant
                self.wf(),
                *self == *old(self),
                k == self.chans@.len(),
                c <= k,
                buf@.len() == c,
                forall|j: int|
                    0 <= j < c ==> (#[trigger] self.chans@[j]).samples_of(
                        buf@[j]@,
                        n,
                        Some(t0),
                        Some(t1),
                    ),
                forall|j: int|
                    0 <= j < c ==> !(#[trigger] self.chans@[j]).nsamps_fails(n, Some(t0), Some(t1)),
            decreases k - c,
        {
            match self.chans[c].calc_nsamps(n, Some(t0), Some(t1)) {
                Ok(v) => buf.push(v),
                Err(e) => {
                    return Err(e);
                },
            }
            c = c + 1;
        }
        self.next_buf = buf;
        Ok(())
    }
}

impl<V: Copy> Device<V> {
    /// Hands the computed buffer over: it becomes the current one.
    pub fn hand_over(&mut self)
        requires
            old(self).wf(),
        ensures
            final(self).wf(),
            final(self).name == old(self).name,
            final(self).samp_rate == old(self).samp_rate,
            final(self).hw_cfg == old(self).hw_cfg,
            final(self).chans == old(self).chans,
            final(self).cur_buf == old(self).next_buf,
    {
        core::mem::swap(&mut self.cur_buf, &mut self.next_buf);
    }
}

} // verus!
