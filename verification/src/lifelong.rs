use vstd::prelude::*;

use std::collections::VecDeque;

verus! {

broadcast use vstd::std_specs::vecdeque::group_vec_dequeue_axioms;

/// How many of the most recent completion ticks are kept. The size is this
/// library's own choice: throughput is only ever asked for recent ticks,
/// and a hundred completions cover them.
pub const THROUGHPUT_WINDOW_SIZE: usize = 100;

/// Number of occurrences of `t` in `s`.
pub open spec fn count_of(s: Seq<u64>, t: u64) -> nat
    decreases s.len(),
{
    if s.len() == 0 {
        0
    } else {
        count_of(s.drop_last(), t) + if s.last() == t {
            1nat
        } else {
            0nat
        }
    }
}

/// Length of the run of `t` at the end of `s`.
pub open spec fn trailing_run(s: Seq<u64>, t: u64) -> nat
    decreases s.len(),
{
    if s.len() == 0 || s.last() != t {
        0
    } else {
        trailing_run(s.drop_last(), t) + 1
    }
}

/// The last `THROUGHPUT_WINDOW_SIZE` elements of `s`.
pub open spec fn window(s: Seq<u64>) -> Seq<u64> {
    if s.len() > THROUGHPUT_WINDOW_SIZE {
        s.skip(s.len() - THROUGHPUT_WINDOW_SIZE)
    } else {
        s
    }
}

pub open spec fn nondecreasing(s: Seq<u64>) -> bool {
    forall|i: int, j: int| 0 <= i <= j < s.len() ==> s[i] <= s[j]
}

/// Task completion bookkeeping of a lifelong run.
pub struct LifelongConfig {
    /// Whether lifelong task assignment is on.
    enabled: bool,
    /// Number of tasks completed so far.
    tasks_completed: u64,
    /// Whether the planner must plan again.
    needs_replan: bool,
    /// Tick numbers at which tasks were completed (for throughput calculation).
    completion_ticks: VecDeque<u64>,
    /// Tick number of the most recent completion.
    last_completion_tick: u64,
    /// Number of completions at `last_completion_tick`.
    last_completion_count: u64,
}

/// The state of a `LifelongConfig`, as contracts speak of it.
pub struct LifelongState {
    pub enabled: bool,
    pub tasks_completed: u64,
    pub needs_replan: bool,
    /// The window of recent completion ticks, oldest first.
    pub ticks: Seq<u64>,
    /// The tick of the most recent completion.
    pub cached_tick: u64,
    /// The number of completions recorded at `cached_tick`.
    pub cached_count: u64,
}

impl LifelongState {
    /// What `throughput(t)` returns.
    pub open spec fn throughput_at(self, t: u64) -> nat {
        if t == self.cached_tick {
            self.cached_count as nat
        } else {
            count_of(self.ticks, t)
        }
    }

    /// The cached count agrees with the window: the window is in
    /// nondecreasing order, its last tick is the cached tick, and the cached
    /// count is how often the cached tick occurs in it.
    pub open spec fn coherent(self) -> bool {
        &&& nondecreasing(self.ticks)
        &&& self.ticks.len() > 0 ==> self.cached_tick == self.ticks.last()
        &&& self.cached_count == count_of(self.ticks, self.cached_tick)
    }
}

impl LifelongState {
    /// The state after one completion at `tick`: one more task, `tick`
    /// appended to the window (the oldest ticks dropped beyond its size),
    /// and the cache moved to `tick`.
    pub open spec fn recorded(self, tick: u64) -> LifelongState {
        LifelongState {
            tasks_completed: (self.tasks_completed + 1) as u64,
            ticks: window(self.ticks.push(tick)),
            cached_tick: tick,
            cached_count: if tick == self.cached_tick {
                (self.cached_count + 1) as u64
            } else {
                1
            },
            ..self
        }
    }

    /// The state after restoring a snapshot of `tasks_completed` and the
    /// window `ticks`: the cache is rebuilt from the run of the window's last
    /// tick at its end, and a replan is requested.
    pub open spec fn restored(self, tasks_completed: u64, ticks: Seq<u64>) -> LifelongState {
        LifelongState {
            tasks_completed: tasks_completed,
            needs_replan: true,
            ticks: ticks,
            cached_tick: if ticks.len() > 0 {
                ticks.last()
            } else {
                0
            },
            cached_count: if ticks.len() > 0 {
                trailing_run(ticks, ticks.last()) as u64
            } else {
                0
            },
            ..self
        }
    }

    /// The state after the window is overwritten with `ticks`: the cache is
    /// rebuilt from the window, counting every occurrence of its last tick.
    pub open spec fn synced(self, ticks: Seq<u64>) -> LifelongState {
        LifelongState {
            ticks: ticks,
            cached_tick: if ticks.len() > 0 {
                ticks.last()
            } else {
                0
            },
            cached_count: if ticks.len() > 0 {
                count_of(ticks, ticks.last()) as u64
            } else {
                0
            },
            ..self
        }
    }

    /// The state after `reset`.
    pub open spec fn cleared(self) -> LifelongState {
        LifelongState {
            tasks_completed: 0,
            needs_replan: false,
            ticks: Seq::empty(),
            cached_tick: 0,
            cached_count: 0,
            ..self
        }
    }

    /// The state after one completion at each tick of `ticks`, in order.
    pub open spec fn recorded_all(self, ticks: Seq<u64>) -> LifelongState
        decreases ticks.len(),
    {
        if ticks.len() == 0 {
            self
        } else {
            self.recorded_all(ticks.drop_last()).recorded(ticks.last())
        }
    }
}

impl View for LifelongConfig {
    type V = LifelongState;

    closed spec fn view(&self) -> LifelongState {
        LifelongState {
            enabled: self.enabled,
            tasks_completed: self.tasks_completed,
            needs_replan: self.needs_replan,
            ticks: self.completion_ticks@,
            cached_tick: self.last_completion_tick,
            cached_count: self.last_completion_count,
        }
    }
}

impl Default for LifelongConfig {
    fn default() -> (c: Self)
        ensures
            c@.enabled,
            c@.tasks_completed == 0,
            !c@.needs_replan,
            c@.ticks == Seq::<u64>::empty(),
            c@.cached_tick == 0,
            c@.cached_count == 0,
            c@.cleared() == c@,
    {
        LifelongConfig {
            enabled: true,
            tasks_completed: 0,
            needs_replan: false,
            completion_ticks: VecDeque::new(),
            last_completion_tick: 0,
            last_completion_count: 0,
        }
    }
}

impl LifelongConfig {
    pub fn reset(&mut self)
        ensures
            final(self)@ == old(self)@.cleared(),
    {
        self.tasks_completed = 0;
        self.needs_replan = false;
        self.completion_ticks.clear();
        self.last_completion_tick = 0;
        self.last_completion_count = 0;
    }

    /// Restore to a snapshot: the completion count and the window of
    /// completion ticks; the cache is rebuilt from the window's last run.
    pub fn restore_from_snapshot(&mut self, tasks_completed: u64, completion_ticks: VecDeque<u64>)
        ensures
            final(self)@ == old(self)@.restored(tasks_completed, completion_ticks@),
    {
        self.tasks_completed = tasks_completed;
        let n = completion_ticks.len();
        if n > 0 {
            let last_tick = completion_ticks[n - 1];
            let ghost s = completion_ticks@;
            let mut count: u64 = 0;
            let mut i: usize = n;
            assert(s.take(n as int) =~= s);
            while i > 0 && completion_ticks[i - 1] == last_tick
                invariant
                    s == completion_ticks@,
                    n == s.len(),
                    last_tick == s.last(),
                    0 <= i <= n,
                    count == n - i,
                    trailing_run(s, last_tick) == trailing_run(s.take(i as int), last_tick)
                        + count,
                decreases i,
            {
                assert(s.take(i as int).drop_last() == s.take(i - 1));
                i = i - 1;
                count = count + 1;
            }
            assert(trailing_run(s.take(i as int), last_tick) == 0);
            self.last_completion_tick = last_tick;
            self.last_completion_count = count;
        } else {
            self.last_completion_tick = 0;
            self.last_completion_count = 0;
        }
        self.completion_ticks = completion_ticks;
        self.needs_replan = true;
    }

    /// Read-only access to the window of completion ticks.
    pub fn completion_ticks(&self) -> (t: &VecDeque<u64>)
        ensures
            t@ == self@.ticks,
    {
        &self.completion_ticks
    }

    /// Overwrite the window of completion ticks; the cache is rebuilt from
    /// the new window, so that `throughput(t)` counts `t` in it.
    pub fn set_completion_ticks(&mut self, ticks: VecDeque<u64>)
        ensures
            final(self)@ == old(self)@.synced(ticks@),
            forall|t: u64| #[trigger] final(self)@.throughput_at(t) == count_of(ticks@, t),
            nondecreasing(ticks@) ==> final(self)@.coherent(),
    {
        let n = ticks.len();
        proof {
            assert forall|t: u64| #[trigger] old(self)@.synced(ticks@).throughput_at(t) == count_of(ticks@, t) by {
                lemma_synced_throughput_counts(old(self)@, ticks@, t);
            }
            if ticks@.len() > 0 {
                lemma_synced_throughput_counts(old(self)@, ticks@, ticks@.last());
            }
        }
        if n > 0 {
            let last_tick = ticks[n - 1];
            let ghost s = ticks@;
            let mut count: u64 = 0;
            let mut i: usize = 0;
            while i < n
                invariant
                    s == ticks@,
                    n == s.len(),
                    0 <= i <= n,
                    count == count_of(s.take(i as int), last_tick),
                    count <= i,
                decreases n - i,
            {
                assert(s.take(i + 1).drop_last() == s.take(i as int));
                if ticks[i] == last_tick {
                    count = count + 1;
                }
                i = i + 1;
            }
            assert(s.take(n as int) == s);
            self.last_completion_tick = last_tick;
            self.last_completion_count = count;
        } else {
            self.last_completion_tick = 0;
            self.last_completion_count = 0;
        }
        self.completion_ticks = ticks;
    }

    pub fn enabled(&self) -> (b: bool)
        ensures
            b == self@.enabled,
    {
        self.enabled
    }

    pub fn set_enabled(&mut self, enabled: bool)
        ensures
            final(self)@ == (LifelongState { enabled, ..old(self)@ }),
    {
        self.enabled = enabled;
    }

    pub fn tasks_completed(&self) -> (n: u64)
        ensures
            n == self@.tasks_completed,
    {
        self.tasks_completed
    }

    pub fn set_tasks_completed(&mut self, tasks_completed: u64)
        ensures
            final(self)@ == (LifelongState { tasks_completed, ..old(self)@ }),
    {
        self.tasks_completed = tasks_completed;
    }

    pub fn needs_replan(&self) -> (b: bool)
        ensures
            b == self@.needs_replan,
    {
        self.needs_replan
    }

    pub fn set_needs_replan(&mut self, needs_replan: bool)
        ensures
            final(self)@ == (LifelongState { needs_replan, ..old(self)@ }),
    {
        self.needs_replan = needs_replan;
    }

    /// Record one completed task at `tick`.
    pub fn record_completion(&mut self, tick: u64)
        requires
            old(self)@.tasks_completed < u64::MAX,
            tick == old(self)@.cached_tick ==> old(self)@.cached_count < u64::MAX,
        ensures
            final(self)@ == old(self)@.recorded(tick),
            final(self)@.tasks_completed == old(self)@.tasks_completed + 1,
    {
        self.tasks_completed = self.tasks_completed + 1;
        self.completion_ticks.push_back(tick);
        let ghost s = self.completion_ticks@;
        let ghost mut popped: int = 0;
        while self.completion_ticks.len() > THROUGHPUT_WINDOW_SIZE
            invariant
                self.completion_ticks@ == s.skip(popped),
                0 <= popped <= s.len(),
                popped > 0 ==> s.len() - popped >= THROUGHPUT_WINDOW_SIZE,
                self.tasks_completed == old(self).tasks_completed + 1,
                self.enabled == old(self).enabled,
                self.needs_replan == old(self).needs_replan,
                self.last_completion_tick == old(self).last_completion_tick,
                self.last_completion_count == old(self).last_completion_count,
            decreases self.completion_ticks@.len(),
        {
            let _ = self.completion_ticks.pop_front();
            proof {
                popped = popped + 1;
                assert(self.completion_ticks@ =~= s.skip(popped));
            }
        }
        proof {
            if popped == 0 {
                assert(s.skip(0) =~= s);
            }
            assert(self.completion_ticks@ =~= window(s));
        }
        if tick == self.last_completion_tick {
            self.last_completion_count = self.last_completion_count + 1;
        } else {
            self.last_completion_tick = tick;
            self.last_completion_count = 1;
        }
    }

    /// Number of tasks completed at `current_tick`: the cached count for the
    /// most recent completion tick, otherwise a scan of the window.
    pub fn throughput(&self, current_tick: u64) -> (n: u64)
        ensures
            n == self@.throughput_at(current_tick),
    {
        if current_tick == self.last_completion_tick {
            self.last_completion_count
        } else {
            let ghost s = self.completion_ticks@;
            let mut count: u64 = 0;
            let mut i: usize = 0;
            while i < self.completion_ticks.len()
                invariant
                    s == self.completion_ticks@,
                    0 <= i <= s.len(),
                    count == count_of(s.take(i as int), current_tick),
                    count <= i,
                decreases s.len() - i,
            {
                assert(s.take(i + 1).drop_last() == s.take(i as int));
                if self.completion_ticks[i] == current_tick {
                    count = count + 1;
                }
                i = i + 1;
            }
            assert(s.take(s.len() as int) == s);
            count
        }
    }
}

// ---------------------------------------------------------------------------
// Laws
// ---------------------------------------------------------------------------

proof fn lemma_count_append(a: Seq<u64>, b: Seq<u64>, t: u64)
    ensures
        count_of(a + b, t) == count_of(a, t) + count_of(b, t),
    decreases b.len(),
{
    if b.len() > 0 {
        lemma_count_append(a, b.drop_last(), t);
        assert((a + b).drop_last() =~= a + b.drop_last());
    } else {
        assert(a + b =~= a);
    }
}

proof fn lemma_count_none(s: Seq<u64>, t: u64)
    requires
        forall|i: int| 0 <= i < s.len() ==> s[i] != t,
    ensures
        count_of(s, t) == 0,
    decreases s.len(),
{
    if s.len() > 0 {
        lemma_count_none(s.drop_last(), t);
    }
}

proof fn lemma_count_all(s: Seq<u64>, t: u64)
    requires
        forall|i: int| 0 <= i < s.len() ==> s[i] == t,
    ensures
        count_of(s, t) == s.len(),
    decreases s.len(),
{
    if s.len() > 0 {
        lemma_count_all(s.drop_last(), t);
    }
}

/// In a nondecreasing window, the run of the last tick at the end holds
/// every occurrence of that tick.
pub proof fn lemma_trailing_run_counts_last(s: Seq<u64>)
    requires
        nondecreasing(s),
        s.len() > 0,
    ensures
        trailing_run(s, s.last()) == count_of(s, s.last()),
    decreases s.len(),
{
    let t = s.last();
    let d = s.drop_last();
    assert(nondecreasing(d)) by {
        assert forall|i: int, j: int| 0 <= i <= j < d.len() implies d[i] <= d[j] by {
            assert(s[i] <= s[j]);
        }
    }
    if d.len() > 0 && d.last() == t {
        lemma_trailing_run_counts_last(d);
    } else {
        assert forall|i: int| 0 <= i < d.len() implies d[i] != t by {
            assert(d[i] <= d[d.len() - 1]);
        }
        lemma_count_none(d, t);
        assert(trailing_run(d, t) == 0);
    }
    assert(trailing_run(s, t) == trailing_run(d, t) + 1);
    assert(count_of(s, t) == count_of(d, t) + 1);
}

/// With the cache coherent, `throughput(t)` is the number of completions at
/// `t` in the window, whichever way it is computed.
pub proof fn lemma_coherent_throughput_counts(st: LifelongState, t: u64)
    requires
        st.coherent(),
    ensures
        st.throughput_at(t) == count_of(st.ticks, t),
{
}

/// After `reset` the cache is coherent and no tick has any completion.
pub proof fn lemma_reset_clears_throughput(st: LifelongState, t: u64)
    ensures
        st.cleared().coherent(),
        st.cleared().throughput_at(t) == 0,
{
}

/// Restoring a nondecreasing window of completion ticks leaves the cache
/// coherent.
pub proof fn lemma_restore_is_coherent(st: LifelongState, ticks: Seq<u64>)
    requires
        nondecreasing(ticks),
        ticks.len() > 0 ==> st.cached_tick == ticks.last() && st.cached_count == trailing_run(
            ticks,
            ticks.last(),
        ),
        ticks.len() == 0 ==> st.cached_tick == 0 && st.cached_count == 0,
        st.ticks == ticks,
    ensures
        st.coherent(),
{
    if ticks.len() > 0 {
        lemma_trailing_run_counts_last(ticks);
    }
}

/// Recording completions in tick order keeps the cache coherent, as long as
/// all completions at the newest tick still fit in the window.
pub proof fn lemma_record_keeps_coherent(st: LifelongState, tick: u64)
    requires
        st.coherent(),
        st.ticks.len() > 0 ==> st.ticks.last() <= tick,
        count_of(st.ticks.push(tick), tick) <= THROUGHPUT_WINDOW_SIZE,
        tick == st.cached_tick ==> st.cached_count < u64::MAX,
    ensures
        st.recorded(tick).coherent(),
{
    let s = st.ticks;
    let p = s.push(tick);
    let w = window(p);
    assert(p.drop_last() == s);
    assert(nondecreasing(p)) by {
        assert forall|i: int, j: int| 0 <= i <= j < p.len() implies p[i] <= p[j] by {
            if j == p.len() - 1 && i < j {
                assert(s[i] <= s[s.len() - 1]);
            }
        }
    }
    // the count of `tick` in `p` is the cache after recording
    if tick != st.cached_tick {
        assert forall|i: int| 0 <= i < s.len() implies s[i] != tick by {
            assert(s[i] <= s[s.len() - 1]);
        }
        lemma_count_none(s, tick);
    }
    assert(count_of(p, tick) == st.recorded(tick).cached_count);
    // no occurrence of `tick` is dropped from the window
    if p.len() > THROUGHPUT_WINDOW_SIZE {
        let cut = p.len() - THROUGHPUT_WINDOW_SIZE;
        let dropped = p.take(cut);
        assert(p =~= dropped + w);
        lemma_count_append(dropped, w, tick);
        assert forall|i: int| 0 <= i < dropped.len() implies dropped[i] != tick by {
            if dropped[i] == tick {
                let tail = p.skip(i);
                assert forall|j: int| 0 <= j < tail.len() implies tail[j] == tick by {
                    assert(p[i] <= p[i + j] && p[i + j] <= p[p.len() - 1]);
                }
                lemma_count_all(tail, tick);
                assert(p =~= p.take(i) + tail);
                lemma_count_append(p.take(i), tail, tick);
            }
        }
        lemma_count_none(dropped, tick);
        assert(w.last() == p.last());
    }
}

/// Recording a completion never leaves more than `THROUGHPUT_WINDOW_SIZE`
/// ticks in the window, and always keeps the newest one.
pub proof fn lemma_record_bounds_window(st: LifelongState, tick: u64)
    ensures
        st.recorded(tick).ticks.len() <= THROUGHPUT_WINDOW_SIZE,
        st.recorded(tick).ticks.last() == tick,
{
}

/// After the window is overwritten, `throughput(t)` is the number of
/// completions at `t` in the new window, for every `t`.
pub proof fn lemma_synced_throughput_counts(st: LifelongState, ticks: Seq<u64>, t: u64)
    requires
        ticks.len() <= usize::MAX,
    ensures
        st.synced(ticks).throughput_at(t) == count_of(ticks, t),
{
    lemma_count_le_len(ticks, t);
    if ticks.len() > 0 {
        lemma_count_le_len(ticks, ticks.last());
    }
}

proof fn lemma_count_le_len(s: Seq<u64>, t: u64)
    ensures
        count_of(s, t) <= s.len(),
    decreases s.len(),
{
    if s.len() > 0 {
        lemma_count_le_len(s.drop_last(), t);
    }
}

proof fn lemma_trailing_le_len(s: Seq<u64>, t: u64)
    ensures
        trailing_run(s, t) <= s.len(),
    decreases s.len(),
{
    if s.len() > 0 && s.last() == t {
        lemma_trailing_le_len(s.drop_last(), t);
    }
}

/// Restoring another config's completion count and window (taken from a
/// config whose cache is coherent, as recording in tick order keeps it)
/// reproduces that config: same count, same window, a replan requested, and
/// the same throughput at every tick.
pub proof fn lemma_restore_reproduces(c: LifelongState, d: LifelongState, t: u64)
    requires
        c.coherent(),
        c.ticks.len() <= usize::MAX,
    ensures
        d.restored(c.tasks_completed, c.ticks).tasks_completed == c.tasks_completed,
        d.restored(c.tasks_completed, c.ticks).ticks == c.ticks,
        d.restored(c.tasks_completed, c.ticks).needs_replan,
        d.restored(c.tasks_completed, c.ticks).throughput_at(t) == c.throughput_at(t),
{
    let r = d.restored(c.tasks_completed, c.ticks);
    if c.ticks.len() > 0 {
        lemma_trailing_run_counts_last(c.ticks);
        lemma_trailing_le_len(c.ticks, c.ticks.last());
    }
    lemma_restore_is_coherent(r, c.ticks);
}

} // verus!

verus! {

/// Recording completions in tick order, at most a window's worth of them,
/// from a cleared state (the default one, or one after `reset`) leaves a
/// coherent cache over exactly those ticks, and counts one task for each.
proof fn lemma_cleared_recordings(st: LifelongState, ticks: Seq<u64>)
    requires
        nondecreasing(ticks),
        ticks.len() <= THROUGHPUT_WINDOW_SIZE,
    ensures
        st.cleared().recorded_all(ticks).coherent(),
        st.cleared().recorded_all(ticks).ticks == ticks,
        st.cleared().recorded_all(ticks).tasks_completed == ticks.len(),
        st.cleared().recorded_all(ticks).needs_replan == st.cleared().needs_replan,
    decreases ticks.len(),
{
    if ticks.len() > 0 {
        let p = ticks.drop_last();
        let tick = ticks.last();
        assert(nondecreasing(p)) by {
            assert forall|i: int, j: int| 0 <= i <= j < p.len() implies p[i] <= p[j] by {
                assert(ticks[i] <= ticks[j]);
            }
        }
        lemma_cleared_recordings(st, p);
        let prev = st.cleared().recorded_all(p);
        assert(p.push(tick) == ticks);
        lemma_count_le_len(ticks, tick);
        lemma_count_le_len(p, prev.cached_tick);
        if p.len() > 0 {
            assert(p.last() == ticks[p.len() - 1]);
        }
        lemma_record_keeps_coherent(prev, tick);
    }
}

/// After any run of completions recorded in tick order from a cleared state
/// (the default one, or one after `reset`), at most a window's worth of
/// them, `throughput(t)` is the number of completions recorded at `t`, and
/// the window holds exactly the recorded ticks.
pub proof fn lemma_recordings_count_throughput(st: LifelongState, ticks: Seq<u64>, t: u64)
    requires
        nondecreasing(ticks),
        ticks.len() <= THROUGHPUT_WINDOW_SIZE,
    ensures
        st.cleared().recorded_all(ticks).throughput_at(t) == count_of(ticks, t),
        st.cleared().recorded_all(ticks).ticks == ticks,
        st.cleared().recorded_all(ticks).tasks_completed == ticks.len(),
{
    lemma_cleared_recordings(st, ticks);
    lemma_coherent_throughput_counts(st.cleared().recorded_all(ticks), t);
}

/// Restoring any state `d` from the task count and window of a run of
/// completions recorded in tick order from a cleared state (at most a
/// window's worth) reproduces that run: the same count, the same window, a
/// pending replan, and the same `throughput(t)` at every tick.
pub proof fn lemma_recorded_run_round_trip(
    st: LifelongState,
    ticks: Seq<u64>,
    d: LifelongState,
    t: u64,
)
    requires
        nondecreasing(ticks),
        ticks.len() <= THROUGHPUT_WINDOW_SIZE,
    ensures
        ({
            let c = st.cleared().recorded_all(ticks);
            let r = d.restored(c.tasks_completed, c.ticks);
            &&& r.tasks_completed == c.tasks_completed
            &&& r.ticks == c.ticks
            &&& r.needs_replan
            &&& r.throughput_at(t) == c.throughput_at(t)
        }),
{
    lemma_cleared_recordings(st, ticks);
    lemma_restore_reproduces(st.cleared().recorded_all(ticks), d, t);
}


/// Recording a completion counts exactly one more task, however full the
/// window of completion ticks already is.
pub proof fn lemma_recording_counts_one_task(st: LifelongState, tick: u64)
    requires
        st.tasks_completed < u64::MAX,
    ensures
        st.recorded(tick).tasks_completed == st.tasks_completed + 1,
{
}

/// After any number of completions recorded from a cleared state (the
/// default one, or one after `reset`), the task count is the number of
/// completions, whether or not they all still fit in the window.
pub proof fn lemma_recordings_count_tasks(st: LifelongState, ticks: Seq<u64>)
    requires
        ticks.len() <= u64::MAX,
    ensures
        st.cleared().recorded_all(ticks).tasks_completed == ticks.len(),
    decreases ticks.len(),
{
    if ticks.len() > 0 {
        lemma_recordings_count_tasks(st, ticks.drop_last());
        lemma_recording_counts_one_task(st.cleared().recorded_all(ticks.drop_last()), ticks.last());
    }
}

} // verus!
