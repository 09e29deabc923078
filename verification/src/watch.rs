//! Watch mode: which file events count as source changes, and when a change
//! starts another cargo run.

use vstd::prelude::*;

use crate::schedulers::str_eq;

verus! {

/// Minimum time, in milliseconds, that must have passed since the last run
/// before a source change starts another one.
pub const DEBOUNCE_MS: u64 = 2000;

/// What the watcher hands the loop.
#[derive(Debug, Clone, Copy, PartialEq, Eq, Structural)]
pub enum WatchEvent {
    /// A source file changed; `now_ms` is the time since watching began.
    SourceChanged { now_ms: u64 },
    /// Nothing arrived within the poll interval.
    Idle,
    /// The watcher is gone.
    Closed,
}

/// What the loop does next.
#[derive(Debug, Clone, Copy, PartialEq, Eq, Structural)]
pub enum WatchAction {
    /// Run cargo with the watch command now.
    RunCargo,
    /// Keep waiting for events.
    Wait,
    /// Leave watch mode.
    Stop,
}

/// The loop's memory: when the last run started, if one has.
#[derive(Debug, Clone, Copy, PartialEq, Eq, Structural)]
pub struct WatchState {
    pub last_run_ms: Option<u64>,
}

/// Whether a change at `now` is far enough from the last run to start one.
pub open spec fn run_due(last_run_ms: Option<u64>, now: u64) -> bool {
    match last_run_ms {
        None => true,
        Some(last) => now - last > DEBOUNCE_MS,
    }
}

/// The next state and action of the loop on `event`.
pub open spec fn watch_step(s: WatchState, event: WatchEvent) -> (WatchState, WatchAction) {
    match event {
        WatchEvent::SourceChanged { now_ms } => if run_due(s.last_run_ms, now_ms) {
            (WatchState { last_run_ms: Some(now_ms) }, WatchAction::RunCargo)
        } else {
            (s, WatchAction::Wait)
        },
        WatchEvent::Idle => (s, WatchAction::Wait),
        WatchEvent::Closed => (s, WatchAction::Stop),
    }
}

impl WatchState {
    /// The state before any run: the first change always starts one.
    pub fn new() -> (s: WatchState)
        ensures
            s.last_run_ms is None,
    {
        WatchState { last_run_ms: None }
    }

    /// The next state and action of the loop on `event`.
    pub fn on_event(&self, event: WatchEvent) -> (r: (WatchState, WatchAction))
        ensures
            r == watch_step(*self, event),
    {
        match event {
            WatchEvent::SourceChanged { now_ms } => {
                let due = match self.last_run_ms {
                    None => true,
                    Some(last) => now_ms > last && now_ms - last > DEBOUNCE_MS,
                };
                if due {
                    (WatchState { last_run_ms: Some(now_ms) }, WatchAction::RunCargo)
                } else {
                    (*self, WatchAction::Wait)
                }
            },
            WatchEvent::Idle => (*self, WatchAction::Wait),
            WatchEvent::Closed => (*self, WatchAction::Stop),
        }
    }
}

/// Two runs started by changes are more than `DEBOUNCE_MS` apart: after a
/// run at `t1`, a change at `t2` starts another only when `t2 - t1` exceeds
/// it, and every event in between that is not a run leaves the state as it
/// was.
pub proof fn lemma_runs_are_spaced(s: WatchState, t1: u64, e: WatchEvent)
    requires
        watch_step(s, WatchEvent::SourceChanged { now_ms: t1 }).1 == WatchAction::RunCargo,
    ensures
        ({
            let after = watch_step(s, WatchEvent::SourceChanged { now_ms: t1 }).0;
            &&& after.last_run_ms == Some(t1)
            &&& watch_step(after, e).1 != WatchAction::RunCargo ==> watch_step(after, e).0 == after
            &&& e matches WatchEvent::SourceChanged { now_ms: t2 } ==> (watch_step(after, e).1
                == WatchAction::RunCargo <==> t2 - t1 > DEBOUNCE_MS)
        }),
{
}

/// Whether a path's extension is `rs`.
pub open spec fn is_rs(ext: Option<String>) -> bool {
    ext matches Some(e) && e@ == "rs"@
}

/// Whether a file event is a change to Rust source: a modification or a
/// creation touching at least one path whose extension is `rs`.
pub open spec fn is_source_change_spec(modify_or_create: bool, extensions: Seq<Option<String>>) -> bool {
    modify_or_create && exists|i: int| 0 <= i < extensions.len() && #[trigger] is_rs(extensions[i])
}

/// Whether a file event is a change to Rust source. `extensions` holds, for
/// each path of the event, its extension when it has one.
pub fn is_source_change(modify_or_create: bool, extensions: &[Option<String>]) -> (r: bool)
    ensures
        r == is_source_change_spec(modify_or_create, extensions@),
{
    if !modify_or_create {
        return false;
    }
    let mut i: usize = 0;
    while i < extensions.len()
        invariant
            modify_or_create,
            0 <= i <= extensions@.len(),
            forall|j: int| 0 <= j < i ==> !#[trigger] is_rs(extensions@[j]),
        decreases extensions@.len() - i,
    {
        match &extensions[i] {
            Some(e) => {
                if str_eq(e.as_str(), "rs") {
                    assert(is_rs(extensions@[i as int]));
                    return true;
                }
            },
            None => {},
        }
        i = i + 1;
    }
    false
}

/// The cargo subcommand that watch mode runs on each change, which is also
/// how it names its mode.
pub fn watch_command(run_test: bool) -> (s: &'static str)
    ensures
        s@ == if run_test {
            "test"@
        } else {
            "check"@
        },
{
    if run_test {
        "test"
    } else {
        "check"
    }
}

} // verus!
