//! One output line: an ordered, non-overlapping timeline of instructions,
//! its compilation against a stop time, and sampling.
//!
//! Times are integer nanoseconds since the start of the run.
use vstd::prelude::*;

use crate::error::StreamError;

verus! {

/// The value-generating function of an instruction, evaluated at the time
/// elapsed since the instruction's start.
#[derive(Clone, Copy)]
pub enum Func<V> {
    /// The same value at every time.
    Const(V),
    /// A square wave: `hi` for the first `half_period` nanoseconds of every
    /// period, `lo` for the second.
    Square { hi: V, lo: V, half_period: u64 },
}

impl<V: Copy> Func<V> {
    pub open spec fn wf(&self) -> bool {
        match *self {
            Func::Square { half_period, .. } => half_period > 0,
            Func::Const(_) => true,
        }
    }

    pub open spec fn spec_eval(&self, t: u64) -> V {
        match *self {
            Func::Const(v) => v,
            Func::Square { hi, lo, half_period } => if (t / half_period) % 2 == 0 {
                hi
            } else {
                lo
            },
        }
    }

    pub fn eval(&self, t: u64) -> (r: V)
        requires
            self.wf(),
        ensures
            r == self.spec_eval(t),
    {
        match *self {
            Func::Const(v) => v,
            Func::Square { hi, lo, half_period } => if (t / half_period) % 2 == 0 {
                hi
            } else {
                lo
            },
        }
    }
}

/// A timed directive: `func` drives the line from `start` on.
///
/// `dur` is `None` for an open-ended instruction, whose end is resolved at
/// compile time to the start of the next instruction, or to the stop time.
/// `Some((d, keep_val))` gives a duration `d` that claims `[start, start + d)`;
/// with `keep_val` the instruction goes on driving the line past `d` until
/// the next instruction (or the stop time), without it the line returns to
/// its default value at `start + d`.
#[derive(Clone, Copy)]
pub struct Instr<V> {
    pub start: u64,
    pub dur: Option<(u64, bool)>,
    pub func: Func<V>,
}

/// The end an instruction claims at insertion: `start + d` for a fixed
/// duration, `start` while open-ended.
pub open spec fn fixed_end<V>(ins: Instr<V>) -> int {
    match ins.dur {
        Some((d, _)) => ins.start + d,
        None => ins.start as int,
    }
}

/// True for an instruction whose end is the start of its successor (or the
/// stop time): an open-ended one, or one with `keep_val`.
pub open spec fn extends<V>(ins: Instr<V>) -> bool {
    match ins.dur {
        Some((_, keep_val)) => keep_val,
        None => true,
    }
}

/// The end of instruction `i` once the timeline is compiled against `stop`.
pub open spec fn resolved_end<V>(s: Seq<Instr<V>>, i: int, stop: int) -> int {
    if !extends(s[i]) {
        fixed_end(s[i])
    } else if i + 1 < s.len() {
        s[i + 1].start as int
    } else {
        stop
    }
}

/// The value an instruction gives at absolute time `tau` (`tau >= start`):
/// its function at the time elapsed since its start.
pub open spec fn instr_value<V: Copy>(ins: Instr<V>, tau: u64) -> V {
    ins.func.spec_eval((tau - ins.start) as u64)
}

/// The value at `tau` of the first instruction from index `i` on whose
/// resolved interval holds `tau`, or `dflt` if none does.
pub open spec fn value_from<V: Copy>(
    s: Seq<Instr<V>>,
    stop: int,
    dflt: V,
    tau: u64,
    i: int,
) -> V
    decreases s.len() - i,
{
    if i < 0 || i >= s.len() {
        dflt
    } else if s[i].start <= tau && tau < resolved_end(s, i, stop) {
        instr_value(s[i], tau)
    } else {
        value_from(s, stop, dflt, tau, i + 1)
    }
}

/// Time of sample `k` of `n` evenly spaced over `[start, end)`.
pub open spec fn samp_time(start: u64, end: u64, n: nat, k: int) -> int {
    start + (k * (end - start)) / (n as int)
}

/// The timeline invariant: instructions sorted by start, each one ending
/// before any later one starts; equal starts only after an empty one.
pub open spec fn timeline_wf<V: Copy>(s: Seq<Instr<V>>) -> bool {
    &&& forall|i: int| 0 <= i < s.len() ==> #[trigger] s[i].func.wf()
    &&& forall|i: int| 0 <= i < s.len() ==> fixed_end(#[trigger] s[i]) <= u64::MAX
    &&& forall|i: int, j: int| 0 <= i < j < s.len() ==> before(#[trigger] s[i], #[trigger] s[j])
}

/// An instruction of zero fixed duration: its interval is empty.
pub open spec fn is_empty<V>(ins: Instr<V>) -> bool {
    match ins.dur {
        Some((d, _)) => d == 0,
        None => false,
    }
}

/// `a` may stand before `b`: it ends no later than `b` starts, and starts
/// earlier unless its interval is empty.
pub open spec fn before<V>(a: Instr<V>, b: Instr<V>) -> bool {
    fixed_end(a) <= b.start && (a.start < b.start || is_empty(a))
}

/// True when instruction `ins` lies clear of `other`, entirely before or
/// entirely after it.
pub open spec fn clear_of<V>(ins: Instr<V>, other: Instr<V>) -> bool {
    before(ins, other) || before(other, ins)
}

/// `ins` cannot stand beside `other`: their intervals meet, or they start
/// together and neither is empty.
pub open spec fn conflicts<V>(ins: Instr<V>, other: Instr<V>) -> bool {
    !clear_of(ins, other)
}

/// The timeline ends in an open-ended instruction that starts at or before `t`.
pub open spec fn pending_before<V>(s: Seq<Instr<V>>, t: u64) -> bool {
    s.len() > 0 && s.last().dur.is_none() && s.last().start <= t
}

/// `ins` can join the timeline: it is clear of every instruction.
pub open spec fn fits<V>(s: Seq<Instr<V>>, ins: Instr<V>) -> bool {
    forall|i: int| 0 <= i < s.len() ==> clear_of(ins, #[trigger] s[i])
}

/// One output line: its identity, sample rate, default and reset values,
/// and its timeline of instructions.
pub struct Channel<V> {
    /// `(index, 0)` for an analog channel, `(port, line)` for a digital one.
    pub key: (usize, usize),
    /// The name the driver knows the line by.
    pub name: String,
    pub samp_rate: u64,
    pub dflt_val: V,
    pub rst_val: V,
    pub instrs: Vec<Instr<V>>,
    /// The stop time of the last compile, or `None` once an edit or an
    /// explicit clear has discarded it.
    pub compiled: Option<u64>,
}

impl<V: Copy> Channel<V> {
    pub open spec fn wf(&self) -> bool {
        &&& timeline_wf(self.instrs@)
        &&& match self.compiled {
            Some(stop) => self.spec_fixed_last_end() <= stop,
            None => true,
        }
    }

    /// The end claimed by the last instruction, before any resolution.
    pub open spec fn spec_fixed_last_end(&self) -> int {
        if self.instrs@.len() == 0 {
            0
        } else {
            fixed_end(self.instrs@.last())
        }
    }

    /// The stop time the timeline is resolved against: the compiled one, or
    /// the last claimed end when the cache is clear.
    pub open spec fn eff_stop(&self) -> int {
        match self.compiled {
            Some(stop) => stop as int,
            None => self.spec_fixed_last_end(),
        }
    }

    pub open spec fn spec_last_end(&self) -> int {
        if self.instrs@.len() == 0 {
            0
        } else {
            resolved_end(self.instrs@, self.instrs@.len() - 1, self.eff_stop())
        }
    }

    pub open spec fn value_at(&self, tau: u64) -> V {
        value_from(self.instrs@, self.eff_stop(), self.dflt_val, tau, 0)
    }

    /// The channel after a successful compile against `stop`.
    pub open spec fn spec_compiled(self, stop: u64) -> Self {
        Channel { compiled: Some(stop), ..self }
    }

    pub open spec fn spec_cleared(self) -> Self {
        Channel { compiled: None, ..self }
    }

    pub fn new(key: (usize, usize), name: String, samp_rate: u64, dflt_val: V, rst_val: V) -> (r: Self)
        ensures
            r.wf(),
            r.key == key,
            r.name == name,
            r.samp_rate == samp_rate,
            r.dflt_val == dflt_val,
            r.rst_val == rst_val,
            r.instrs@.len() == 0,
            r.compiled.is_none(),
    {
        Channel { key, name, samp_rate, dflt_val, rst_val, instrs: Vec::new(), compiled: None }
    }

    pub fn dflt_val(&self) -> (r: V)
        ensures
            r == self.dflt_val,
    {
        self.dflt_val
    }

    pub fn rst_val(&self) -> (r: V)
        ensures
            r == self.rst_val,
    {
        self.rst_val
    }

    pub fn is_fresh_compiled(&self) -> (r: bool)
        ensures
            r == self.compiled.is_some(),
    {
        self.compiled.is_some()
    }

    /// Discards the compiled state; the instructions stay.
    pub fn clear_edit_cache(&mut self)
        requires
            old(self).wf(),
        ensures
            *final(self) == old(self).spec_cleared(),
            final(self).wf(),
    {
        self.compiled = None;
    }

    /// The end claimed by the last instruction, before any resolution; 0 on
    /// an empty timeline.
    pub fn fixed_last_end_time(&self) -> (r: u64)
        requires
            self.wf(),
        ensures
            r == self.spec_fixed_last_end(),
    {
        let n = self.instrs.len();
        if n == 0 {
            0
        } else {
            fixed_end_exec(&self.instrs[n - 1])
        }
    }

    pub fn takes_reset_exec(&self, reset: u64) -> (r: bool)
        ensures
            r == self.takes_reset(reset),
    {
        let n = self.instrs.len();
        n == 0 || self.instrs[n - 1].start < reset
    }

    /// End time of the last instruction: resolved if compiled, else its own
    /// fixed end, else its start if it is open; 0 on an empty timeline.
    pub fn last_instr_end_time(&self) -> (r: u64)
        requires
            self.wf(),
        ensures
            r == self.spec_last_end(),
    {
        let n = self.instrs.len();
        if n == 0 {
            return 0;
        }
        let last = &self.instrs[n - 1];
        let stop = match self.compiled {
            Some(s) => s,
            None => fixed_end_exec(last),
        };
        match last.dur {
            Some((d, false)) => last.start + d,
            _ => stop,
        }
    }
}

impl<V: Copy> Channel<V> {
    /// `ins` can be inserted: no pending open-ended instruction at or before
    /// it, and clear of every instruction.
    pub open spec fn add_accepts(&self, ins: Instr<V>) -> bool {
        !pending_before(self.instrs@, ins.start) && fits(self.instrs@, ins)
    }

    /// `e` is the failure that refusing `ins` reports.
    pub open spec fn add_error(&self, ins: Instr<V>, e: StreamError) -> bool {
        if pending_before(self.instrs@, ins.start) {
            e == StreamError::PendingOpenInstr
        } else {
            exists|i: int|
                0 <= i < self.instrs@.len() && conflicts(ins, #[trigger] self.instrs@[i]) && e
                    == StreamError::Overlap {
                    start: self.instrs@[i].start,
                    end: fixed_end(self.instrs@[i]) as u64,
                }
        }
    }

    /// `new` is this channel with `ins` inserted in order and the compiled
    /// state discarded.
    pub open spec fn added_into(&self, new: Self, ins: Instr<V>) -> bool {
        &&& new.key == self.key
        &&& new.name == self.name
        &&& new.samp_rate == self.samp_rate
        &&& new.dflt_val == self.dflt_val
        &&& new.rst_val == self.rst_val
        &&& new.compiled.is_none()
        &&& exists|p: int|
            0 <= p <= self.instrs@.len() && new.instrs@ == self.instrs@.insert(p, ins)
    }

    /// Decides whether `ins` can be inserted, and where: the number of
    /// instructions that start before it.
    pub fn check_add(&self, ins: &Instr<V>) -> (r: Result<usize, StreamError>)
        requires
            self.wf(),
            fixed_end(*ins) <= u64::MAX,
        ensures
            r.is_ok() <==> self.add_accepts(*ins),
            r matches Err(e) ==> self.add_error(*ins, e),
            r matches Ok(p) ==> p <= self.instrs@.len() && (forall|j: int|
                0 <= j < p ==> before(#[trigger] self.instrs@[j], *ins)) && (forall|j: int|
                p <= j < self.instrs@.len() ==> before(*ins, #[trigger] self.instrs@[j])),
    {
        let t = ins.start;
        let n = self.instrs.len();
        if n > 0 && self.instrs[n - 1].dur.is_none() && self.instrs[n - 1].start <= t {
            return Err(StreamError::PendingOpenInstr);
        }
        let e = fixed_end_exec(ins);
        let ghost s = self.instrs@;
        let mut p: usize = 0;
        let mut i: usize = 0;
        while i < n
            invariant
                s == self.instrs@,
                self.wf(),
                !pending_before(s, t),
                n == s.len(),
                e == fixed_end(*ins),
                t == ins.start,
                p <= i <= n,
                forall|j: int| 0 <= j < i ==> clear_of(*ins, #[trigger] s[j]),
                forall|j: int| 0 <= j < p ==> before(#[trigger] s[j], *ins),
                forall|j: int| p <= j < i ==> before(*ins, #[trigger] s[j]),
            decreases n - i,
        {
            let cur = &self.instrs[i];
            let cur_end = fixed_end_exec(cur);
            let ins_empty = is_empty_exec(ins);
            let cur_empty = is_empty_exec(cur);
            if e <= cur.start && (t < cur.start || ins_empty) {
            } else if cur_end <= t && (cur.start < t || cur_empty) {
                proof {
                    if p < i {
                        assert(before(*ins, s[p as int]));
                        assert(before(s[p as int], s[i as int]));
                    }
                }
                p = i + 1;
            } else {
                proof {
                    assert(conflicts(*ins, s[i as int]));
                }
                return Err(StreamError::Overlap { start: cur.start, end: cur_end });
            }
            i = i + 1;
        }
        Ok(p)
    }

    /// Inserts an instruction at `t`, keeping the timeline sorted and free of
    /// overlaps; any compiled state is discarded.
    pub fn add_instr(&mut self, func: Func<V>, t: u64, dur: Option<(u64, bool)>) -> (r: Result<
        (),
        StreamError,
    >)
        requires
            old(self).wf(),
            func.wf(),
            match dur {
                Some((d, _)) => t + d <= u64::MAX,
                None => true,
            },
        ensures
            final(self).wf(),
            r.is_ok() <==> old(self).add_accepts((Instr { start: t, dur, func })),
            r matches Err(e) ==> old(self).add_error((Instr { start: t, dur, func }), e) && *final(
                self
            ) == *old(self),
            r.is_ok() ==> old(self).added_into(*final(self), (Instr { start: t, dur, func })),
    {
        let ins = Instr { start: t, dur, func };
        let p = self.check_add(&ins)?;
        let ghost s = self.instrs@;
        proof {
            assert forall|j: int| 0 <= j < p implies fixed_end(#[trigger] s[j]) <= t by {
                assert(clear_of(ins, s[j]));
            }
            assert forall|j: int| p <= j < s.len() implies fixed_end(ins) <= #[trigger] s[j].start by {
                assert(clear_of(ins, s[j]));
            }
        }
        self.instrs.insert(p, ins);
        self.compiled = None;
        proof {
            let s2 = self.instrs@;
            assert forall|a: int, b: int| 0 <= a < b < s2.len() implies before(
                #[trigger] s2[a],
                #[trigger] s2[b],
            ) by {
                if a < p && b < p {
                    assert(s2[a] == s[a] && s2[b] == s[b]);
                } else if a < p && b == p {
                    assert(s2[a] == s[a]);
                } else if a < p {
                    assert(s2[a] == s[a] && s2[b] == s[b - 1]);
                } else if a == p {
                    assert(s2[b] == s[b - 1]);
                } else {
                    assert(s2[a] == s[a - 1] && s2[b] == s[b - 1]);
                }
            }
            assert forall|a: int| 0 <= a < s2.len() implies (#[trigger] s2[a]).func.wf() && fixed_end(
                s2[a],
            ) <= u64::MAX by {
                if a < p {
                    assert(s2[a] == s[a] && s[a].func.wf());
                } else if a > p {
                    assert(s2[a] == s[a - 1] && s[a - 1].func.wf());
                } else {
                    assert(s2[a] == ins);
                }
            }
        }
        Ok(())
    }

    /// The channel gets a reset instruction at `reset`: no instruction
    /// starts at or after it.
    pub open spec fn takes_reset(&self, reset: u64) -> bool {
        self.instrs@.len() == 0 || self.instrs@.last().start < reset
    }

    /// Appends an instruction of `eps` nanoseconds at `reset` that drives
    /// the reset value; an open-ended last instruction then ends at `reset`.
    pub fn append_reset(&mut self, reset: u64, eps: u64)
        requires
            old(self).wf(),
            old(self).takes_reset(reset),
            old(self).spec_fixed_last_end() <= reset,
            reset + eps <= u64::MAX,
        ensures
            final(self).wf(),
            final(self).key == old(self).key,
            final(self).name == old(self).name,
            final(self).samp_rate == old(self).samp_rate,
            final(self).dflt_val == old(self).dflt_val,
            final(self).rst_val == old(self).rst_val,
            final(self).compiled.is_none(),
            final(self).instrs@ == old(self).instrs@.push(
                (Instr { start: reset, dur: Some((eps, false)), func: Func::Const(old(self).rst_val) }),
            ),
    {
        let ins = Instr { start: reset, dur: Some((eps, false)), func: Func::Const(self.rst_val) };
        let ghost s = self.instrs@;
        proof {
            if s.len() > 0 {
                let l = s.len() - 1;
                assert forall|j: int| 0 <= j < l implies fixed_end(#[trigger] s[j]) <= reset && s[j].start
                    < reset by {
                    assert(fixed_end(s[j]) <= s[l].start);
                }
            }
        }
        self.instrs.push(ins);
        self.compiled = None;
        proof {
            let s2 = self.instrs@;
            assert forall|a: int, b: int| 0 <= a < b < s2.len() implies before(
                #[trigger] s2[a],
                #[trigger] s2[b],
            ) by {
                assert(s2[a] == s[a]);
                if b < s.len() {
                    assert(s2[b] == s[b]);
                }
            }
            assert forall|a: int| 0 <= a < s2.len() implies (#[trigger] s2[a]).func.wf() && fixed_end(
                s2[a],
            ) <= u64::MAX by {
                if a < s.len() {
                    assert(s2[a] == s[a] && s[a].func.wf());
                }
            }
        }
    }

    /// Resolves open ends against `stop`; fails when `stop` lies before the
    /// end claimed by the last instruction.
    pub fn compile(&mut self, stop: u64) -> (r: Result<(), StreamError>)
        requires
            old(self).wf(),
        ensures
            final(self).wf(),
            r.is_ok() <==> old(self).spec_fixed_last_end() <= stop,
            r.is_ok() ==> *final(self) == old(self).spec_compiled(stop),
            r.is_err() ==> r == Err::<(), StreamError>(StreamError::Compile { stop }) && *final(self)
                == *old(self),
    {
        let n = self.instrs.len();
        if n > 0 && stop < fixed_end_exec(&self.instrs[n - 1]) {
            return Err(StreamError::Compile { stop });
        }
        self.compiled = Some(stop);
        Ok(())
    }

    /// The window end used when none is given: the end of the last
    /// instruction.
    pub open spec fn window_end(&self, end_time: Option<u64>) -> int {
        match end_time {
            Some(e) => e as int,
            None => self.spec_last_end(),
        }
    }

    /// Sampling the window would reach an open-ended instruction while no
    /// compile has resolved open ends.
    pub open spec fn unresolved_within(&self, end: int) -> bool {
        &&& self.compiled.is_none()
        &&& exists|i: int|
            0 <= i < self.instrs@.len() && (#[trigger] self.instrs@[i]).dur.is_none()
                && self.instrs@[i].start < end
    }

    /// Some open-ended instruction starts before `end`.
    fn open_before(&self, end: u64) -> (r: bool)
        ensures
            r == exists|i: int|
                0 <= i < self.instrs@.len() && (#[trigger] self.instrs@[i]).dur.is_none()
                    && self.instrs@[i].start < end,
    {
        let n = self.instrs.len();
        let mut i: usize = 0;
        while i < n
            invariant
                n == self.instrs@.len(),
                i <= n,
                forall|j: int|
                    0 <= j < i ==> !((#[trigger] self.instrs@[j]).dur.is_none()
                        && self.instrs@[j].start < end),
            decreases n - i,
        {
            if self.instrs[i].dur.is_none() && self.instrs[i].start < end {
                return true;
            }
            i = i + 1;
        }
        false
    }

    pub open spec fn nsamps_fails(&self, n: usize, start_time: Option<u64>, end_time: Option<u64>) -> bool {
        let st = match start_time {
            Some(s) => s as int,
            None => 0,
        };
        let en = self.window_end(end_time);
        n == 0 || st > en || self.unresolved_within(en)
    }

    /// `v` holds `n` samples of the window: each the value at its sample time.
    pub open spec fn samples_of(&self, v: Seq<V>, n: usize, start_time: Option<u64>, end_time: Option<u64>) -> bool {
        let st: u64 = match start_time {
            Some(s) => s,
            None => 0,
        };
        let en = self.window_end(end_time) as u64;
        &&& v.len() == n
        &&& forall|k: int|
            0 <= k < n ==> #[trigger] v[k] == self.value_at(samp_time(st, en, n as nat, k) as u64)
    }

    /// `n_samps` samples evenly spaced over `[start_time, end_time)` (by
    /// default from 0 to the end of the last instruction). Each sample is the
    /// value of the instruction whose resolved interval holds its time, or the
    /// default value where none does.
    pub fn calc_nsamps(&self, n_samps: usize, start_time: Option<u64>, end_time: Option<u64>) -> (r:
        Result<Vec<V>, StreamError>)
        requires
            self.wf(),
        ensures
            r.is_err() <==> self.nsamps_fails(n_samps, start_time, end_time),
            r.is_err() ==> r == Err::<Vec<V>, StreamError>(StreamError::Value),
            r matches Ok(v) ==> self.samples_of(v@, n_samps, start_time, end_time),
    {
        let st = match start_time {
            Some(s) => s,
            None => 0,
        };
        let en = match end_time {
            Some(e) => e,
            None => self.last_instr_end_time(),
        };
        if n_samps == 0 || st > en {
            return Err(StreamError::Value);
        }
        let n = self.instrs.len();
        if self.compiled.is_none() && self.open_before(en) {
            return Err(StreamError::Value);
        }
        let stop = match self.compiled {
            Some(s) => s,
            None => if n == 0 {
                0
            } else {
                fixed_end_exec(&self.instrs[n - 1])
            },
        };
        let mut out: Vec<V> = Vec::new();
        let mut k: usize = 0;
        while k < n_samps
            invariant
                self.wf(),
                st <= en,
                stop == self.eff_stop(),
                0 < n_samps,
                k <= n_samps,
                out@.len() == k,
                forall|j: int|
                    0 <= j < k ==> #[trigger] out@[j] == self.value_at(
                        samp_time(st, en, n_samps as nat, j) as u64,
                    ),
            decreases n_samps - k,
        {
            let tau = sample_time(st, en, n_samps, k);
            let v = self.value_at_exec(stop, tau);
            out.push(v);
            k = k + 1;
        }
        Ok(out)
    }

    fn value_at_exec(&self, stop: u64, tau: u64) -> (r: V)
        requires
            self.wf(),
            stop == self.eff_stop(),
        ensures
            r == self.value_at(tau),
    {
        let n = self.instrs.len();
        let mut i: usize = 0;
        while i < n
            invariant
                self.wf(),
                n == self.instrs@.len(),
                stop == self.eff_stop(),
                i <= n,
                value_from(self.instrs@, stop as int, self.dflt_val, tau, i as int) == self.value_at(
                    tau,
                ),
            decreases n - i,
        {
            let ins = &self.instrs[i];
            let end = if !extends_exec(ins) {
                fixed_end_exec(ins)
            } else if i + 1 < n {
                self.instrs[i + 1].start
            } else {
                stop
            };
            if ins.start <= tau && tau < end {
                return instr_value_exec(ins, tau);
            }
            i = i + 1;
        }
        self.dflt_val
    }
}

fn is_empty_exec<V>(ins: &Instr<V>) -> (r: bool)
    ensures
        r == is_empty(*ins),
{
    match ins.dur {
        Some((d, _)) => d == 0,
        None => false,
    }
}

fn extends_exec<V>(ins: &Instr<V>) -> (r: bool)
    ensures
        r == extends(*ins),
{
    match ins.dur {
        Some((_, keep_val)) => keep_val,
        None => true,
    }
}

fn instr_value_exec<V: Copy>(ins: &Instr<V>, tau: u64) -> (r: V)
    requires
        ins.start <= tau,
        ins.func.wf(),
    ensures
        r == instr_value(*ins, tau),
{
    ins.func.eval(tau - ins.start)
}

/// Time of sample `k` of `n` over `[start, end)`.
fn sample_time(start: u64, end: u64, n: usize, k: usize) -> (r: u64)
    requires
        start <= end,
        k < n,
    ensures
        r == samp_time(start, end, n as nat, k as int),
{
    let span = end - start;
    proof {
        lemma_scaled_offset_bounded(k as int, n as int, span as int);
        assert((k as int) * (span as int) <= u128::MAX) by (nonlinear_arith)
            requires
                k < 0x1_0000_0000_0000_0000int,
                span < 0x1_0000_0000_0000_0000int,
        ;
    }
    let off = ((k as u128) * (span as u128)) / (n as u128);
    start + (off as u64)
}

proof fn lemma_scaled_offset_bounded(k: int, n: int, span: int)
    requires
        0 <= k < n,
        0 <= span,
    ensures
        0 <= (k * span) / n <= span,
        k * span <= n * span,
{
    vstd::arithmetic::mul::lemma_mul_inequality(k, n, span);
    vstd::arithmetic::mul::lemma_mul_nonnegative(k, span);
    vstd::arithmetic::div_mod::lemma_div_is_ordered(k * span, n * span, n);
    vstd::arithmetic::div_mod::lemma_div_is_ordered(0, k * span, n);
    assert(n * span == span * n) by (nonlinear_arith);
    vstd::arithmetic::div_mod::lemma_div_by_multiple(span, n);
}

/// Instructions accepted on a channel never overlap: once the timeline is
/// resolved against any admissible stop time, every instruction ends no later
/// than any later one starts, and begins no later than it ends.
pub proof fn lemma_resolved_disjoint<V: Copy>(ch: Channel<V>, stop: int)
    requires
        ch.wf(),
        ch.spec_fixed_last_end() <= stop,
    ensures
        forall|i: int, j: int|
            0 <= i < j < ch.instrs@.len() ==> #[trigger] resolved_end(ch.instrs@, i, stop)
                <= (#[trigger] ch.instrs@[j]).start,
        forall|i: int|
            0 <= i < ch.instrs@.len() ==> (#[trigger] ch.instrs@[i]).start <= resolved_end(
                ch.instrs@,
                i,
                stop,
            ),
{
    let s = ch.instrs@;
    assert forall|i: int| 0 <= i < s.len() implies (#[trigger] s[i]).start <= resolved_end(
        s,
        i,
        stop,
    ) by {
        if i + 1 < s.len() {
            assert(before(s[i], s[i + 1]));
        }
    }
    assert forall|i: int, j: int| 0 <= i < j < s.len() implies #[trigger] resolved_end(s, i, stop)
        <= (#[trigger] s[j]).start by {
        assert(before(s[i], s[j]));
        if extends(s[i]) && i + 1 < j {
            assert(before(s[i + 1], s[j]));
        }
    }
}

/// Compiling twice against the same stop time, with no edit in between,
/// leaves the channel as the first compile left it: the same resolved ends
/// and the same value at every time, hence the same samples for any window.
pub proof fn lemma_compile_idempotent<V: Copy>(ch: Channel<V>, stop: u64)
    requires
        ch.wf(),
        ch.spec_fixed_last_end() <= stop,
    ensures
        ch.spec_compiled(stop).wf(),
        ch.spec_compiled(stop).spec_compiled(stop) == ch.spec_compiled(stop),
        forall|i: int|
            0 <= i < ch.instrs@.len() ==> resolved_end(
                ch.spec_compiled(stop).spec_compiled(stop).instrs@,
                i,
                ch.spec_compiled(stop).spec_compiled(stop).eff_stop(),
            ) == #[trigger] resolved_end(ch.instrs@, i, stop as int),
        forall|tau: u64|
            #[trigger] ch.spec_compiled(stop).spec_compiled(stop).value_at(tau) == ch.spec_compiled(
                stop,
            ).value_at(tau),
        forall|v: Seq<V>, n: usize, a: Option<u64>, b: Option<u64>|
            #[trigger] ch.spec_compiled(stop).spec_compiled(stop).samples_of(v, n, a, b)
                == ch.spec_compiled(stop).samples_of(v, n, a, b) && ch.spec_compiled(
                stop,
            ).spec_compiled(stop).nsamps_fails(n, a, b) == ch.spec_compiled(stop).nsamps_fails(
                n,
                a,
                b,
            ),
{
}

fn fixed_end_exec<V>(ins: &Instr<V>) -> (r: u64)
    requires
        fixed_end(*ins) <= u64::MAX,
    ensures
        r == fixed_end(*ins),
{
    match ins.dur {
        Some((d, _)) => ins.start + d,
        None => ins.start,
    }
}

} // verus!
