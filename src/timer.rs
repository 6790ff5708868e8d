use vstd::prelude::*;

verus! {

/// A countdown measured in milliseconds.
///
/// `finished` is only ever set on a one-shot timer: it marks that the
/// single completion has been reported and nothing more will be.
#[derive(Clone, Copy, Debug, PartialEq, Eq, Structural)]
pub struct Timer {
    pub duration: u64,
    pub elapsed: u64,
    pub repeating: bool,
    pub finished: bool,
}

/// The timer after one tick of `dt` milliseconds, and whether it fired.
///
/// A timer fires on the tick where `elapsed` first reaches `duration`.
/// A repeating timer then starts over from zero; a one-shot timer stays at
/// its duration, marked finished, and never fires again.
pub open spec fn tick_spec(t: Timer, dt: u64) -> (Timer, bool) {
    if t.finished {
        (t, false)
    } else if t.elapsed + dt >= t.duration {
        if t.repeating {
            (Timer { elapsed: 0, ..t }, true)
        } else {
            (Timer { elapsed: t.duration, finished: true, ..t }, true)
        }
    } else {
        (Timer { elapsed: (t.elapsed + dt) as u64, ..t }, false)
    }
}

impl Timer {
    pub open spec fn wf(self) -> bool {
        &&& self.elapsed <= self.duration
        &&& self.finished ==> !self.repeating && self.elapsed == self.duration
        &&& !self.finished && self.duration > 0 ==> self.elapsed < self.duration
    }

    /// A timer that has not run yet.
    pub fn new(duration: u64, repeating: bool) -> (t: Timer)
        ensures
            t.wf(),
            t == (Timer { duration, elapsed: 0, repeating, finished: false }),
    {
        Timer { duration, elapsed: 0, repeating, finished: false }
    }

    /// Advances the timer by `dt` milliseconds; returns whether it fired
    /// on this tick.
    pub fn tick(&mut self, dt: u64) -> (fired: bool)
        requires
            old(self).wf(),
        ensures
            final(self).wf(),
            (*final(self), fired) == tick_spec(*old(self), dt),
    {
        if self.finished {
            false
        } else if dt >= self.duration - self.elapsed {
            if self.repeating {
                self.elapsed = 0;
            } else {
                self.elapsed = self.duration;
                self.finished = true;
            }
            true
        } else {
            self.elapsed = self.elapsed + dt;
            false
        }
    }

    /// Milliseconds left before the timer completes.
    pub fn remaining(&self) -> (r: u64)
        requires
            self.wf(),
        ensures
            r == self.duration - self.elapsed,
    {
        self.duration - self.elapsed
    }
}

/// The timer after a run of ticks, and how many of them fired.
pub open spec fn run_spec(t: Timer, dts: Seq<u64>) -> (Timer, nat)
    decreases dts.len(),
{
    if dts.len() == 0 {
        (t, 0)
    } else {
        let (t1, f) = tick_spec(t, dts[0]);
        let (t2, n) = run_spec(t1, dts.drop_first());
        (t2, n + if f { 1nat } else { 0nat })
    }
}

/// Ticking keeps a well-formed timer well-formed.
pub proof fn lemma_tick_wf(t: Timer, dt: u64)
    requires
        t.wf(),
    ensures
        tick_spec(t, dt).0.wf(),
        tick_spec(t, dt).0.duration == t.duration,
        tick_spec(t, dt).0.repeating == t.repeating,
{
}

/// A repeating timer that has just fired is back at zero, so it fires again
/// once a further `duration` milliseconds have gone by in a single tick, and
/// not on any shorter tick.
pub proof fn lemma_repeating_fires_again(t: Timer, dt: u64, dt2: u64)
    requires
        t.wf(),
        t.repeating,
        tick_spec(t, dt).1,
    ensures
        tick_spec(t, dt).0.elapsed == 0,
        tick_spec(tick_spec(t, dt).0, dt2).1 <==> dt2 >= t.duration,
{
}

/// A one-shot timer fires at most once, whatever ticks follow.
pub proof fn lemma_one_shot_fires_at_most_once(t: Timer, dts: Seq<u64>)
    requires
        t.wf(),
        !t.repeating,
    ensures
        run_spec(t, dts).1 <= 1,
        t.finished ==> run_spec(t, dts).1 == 0,
    decreases dts.len(),
{
    if dts.len() > 0 {
        let (t1, f) = tick_spec(t, dts[0]);
        lemma_one_shot_fires_at_most_once(t1, dts.drop_first());
    }
}

/// Running two sequences of ticks one after the other is running their
/// concatenation.
pub proof fn lemma_run_append(t: Timer, a: Seq<u64>, b: Seq<u64>)
    ensures
        run_spec(t, a + b) == ({
            let (t1, n1) = run_spec(t, a);
            let (t2, n2) = run_spec(t1, b);
            (t2, n1 + n2)
        }),
    decreases a.len(),
{
    if a.len() == 0 {
        assert(a + b =~= b);
    } else {
        let (t1, f) = tick_spec(t, a[0]);
        assert((a + b).drop_first() =~= a.drop_first() + b);
        lemma_run_append(t1, a.drop_first(), b);
    }
}

/// `j` equal ticks that together bring a repeating timer exactly to its
/// duration make it fire once, at the last of them, and leave it at zero.
proof fn lemma_run_to_completion(t: Timer, step: u64, j: nat)
    requires
        t.wf(),
        t.repeating,
        j >= 1,
        step > 0,
        t.elapsed + j * step == t.duration,
    ensures
        run_spec(t, Seq::new(j, |i: int| step)) == (Timer { elapsed: 0, ..t }, 1nat),
    decreases j,
{
    let s = Seq::new(j, |i: int| step);
    assert(s.drop_first() =~= Seq::new((j - 1) as nat, |i: int| step));
    assert(s[0] == step);
    if j == 1 {
        assert(j * step == step) by (nonlinear_arith) requires j == 1;
        let t1 = tick_spec(t, step).0;
        assert(run_spec(t1, s.drop_first()) == (t1, 0nat));
        assert(run_spec(t, s) == (Timer { elapsed: 0, ..t }, 1nat));
    } else {
        assert(j * step == step + (j - 1) * step) by (nonlinear_arith);
        assert((j - 1) * step >= 0) by (nonlinear_arith)
            requires j >= 1;
        let t1 = Timer { elapsed: (t.elapsed + step) as u64, ..t };
        assert((j - 1) * step >= step) by (nonlinear_arith)
            requires j >= 2, step >= 0;
        assert(tick_spec(t, step) == (t1, false));
        lemma_run_to_completion(t1, step, (j - 1) as nat);
        assert(run_spec(t1, s.drop_first()) == (Timer { elapsed: 0, ..t }, 1nat));
        assert(run_spec(t, s) == (Timer { elapsed: 0, ..t }, 1nat));
    }
}

/// A repeating timer of duration `step * k` (both positive), started from
/// zero and ticked in steps of `step` milliseconds, fires on every `k`-th
/// tick: after `m * k` ticks it has fired exactly `m` times and is back at
/// zero.
pub proof fn lemma_repeating_period(t: Timer, step: u64, k: nat, m: nat)
    requires
        t.wf(),
        t.repeating,
        t.elapsed == 0,
        k > 0,
        step > 0,
        step * k == t.duration,
    ensures
        run_spec(t, Seq::new(m * k, |i: int| step)) == (t, m),
    decreases m,
{
    let s = Seq::new(m * k, |i: int| step);
    if m == 0 {
        assert(m * k == 0) by (nonlinear_arith) requires m == 0;
    } else {
        assert(m * k == k + (m - 1) * k) by (nonlinear_arith);
        assert((m - 1) * k >= 0) by (nonlinear_arith) requires m >= 1, k > 0;
        let a = Seq::new(k, |i: int| step);
        let b = Seq::new(((m - 1) * k) as nat, |i: int| step);
        assert(s =~= a + b);
        lemma_run_append(t, a, b);
        assert(t.elapsed + k * step == t.duration) by (nonlinear_arith)
            requires t.elapsed == 0, step * k == t.duration;
        lemma_run_to_completion(t, step, k);
        assert((Timer { elapsed: 0, ..t }) == t);
        lemma_repeating_period(t, step, k, (m - 1) as nat);
    }
}

} // verus!
