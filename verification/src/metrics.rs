//! Differential metrics comparing a faulted run with its fault-free baseline,
//! over per-tick throughput (tasks completed per tick).

use vstd::prelude::*;

verus! {

/// Numerator of the critical-time threshold: a tick is critical when the
/// faulted throughput is below this fraction of the baseline throughput.
pub const CRITICAL_THRESHOLD_NUM: u64 = 1;

/// Denominator of the critical-time threshold.
pub const CRITICAL_THRESHOLD_DEN: u64 = 2;

pub open spec fn min_len(a: Seq<u64>, b: Seq<u64>) -> int {
    if a.len() < b.len() {
        a.len() as int
    } else {
        b.len() as int
    }
}

/// Tick `i` recovered: the faulted run does at least as well as the baseline.
pub open spec fn recovered_at(baseline: Seq<u64>, faulted: Seq<u64>, i: int) -> bool {
    faulted[i] >= baseline[i]
}

/// `r` is the throughput recovery: the number of ticks from fault onset to
/// the first later tick at which the faulted throughput is back at the
/// baseline's. `Some(0)` when there was no fault (or it came after the
/// series end); `None` when the throughput never recovers.
pub open spec fn is_throughput_recovery(
    baseline: Seq<u64>,
    faulted: Seq<u64>,
    first_fault_idx: Option<usize>,
    r: Option<usize>,
) -> bool {
    let len = min_len(baseline, faulted);
    match first_fault_idx {
        None => r == Some(0usize),
        Some(start) => if start >= len {
            r == Some(0usize)
        } else {
            match r {
                Some(k) => {
                    &&& 0 < k
                    &&& start + k < len
                    &&& recovered_at(baseline, faulted, start + k)
                    &&& forall|j: int|
                        start < j < start + k ==> !#[trigger] recovered_at(baseline, faulted, j)
                },
                None => forall|j: int|
                    start < j < len ==> !#[trigger] recovered_at(baseline, faulted, j),
            }
        },
    }
}

/// Compute throughput recovery: number of ticks from fault onset until
/// per-tick faulted throughput >= per-tick baseline throughput (the fault
/// tick itself is skipped).
pub fn compute_throughput_recovery(
    baseline_tp: &[u64],
    faulted_tp: &[u64],
    first_fault_idx: Option<usize>,
) -> (r: Option<usize>)
    ensures
        is_throughput_recovery(baseline_tp@, faulted_tp@, first_fault_idx, r),
{
    let start = match first_fault_idx {
        Some(s) => s,
        None => return Some(0),
    };
    let len = if baseline_tp.len() < faulted_tp.len() {
        baseline_tp.len()
    } else {
        faulted_tp.len()
    };
    if start >= len {
        return Some(0);
    }
    let mut i: usize = start + 1;
    while i < len
        invariant
            first_fault_idx == Some(start),
            start < len,
            len == min_len(baseline_tp@, faulted_tp@),
            start + 1 <= i <= len,
            len <= baseline_tp@.len(),
            len <= faulted_tp@.len(),
            forall|j: int| start < j < i ==> !#[trigger] recovered_at(baseline_tp@, faulted_tp@, j),
        decreases len - i,
    {
        if faulted_tp[i] >= baseline_tp[i] {
            let k = i - start;
            assert(recovered_at(baseline_tp@, faulted_tp@, start + k));
            assert(forall|j: int|
                start < j < start + k ==> !#[trigger] recovered_at(baseline_tp@, faulted_tp@, j));
            return Some(k);
        }
        i = i + 1;
    }
    None
}

/// Tick `i` is critical: the faulted throughput is below the threshold
/// fraction of the baseline throughput.
pub open spec fn critical_at(baseline: Seq<u64>, faulted: Seq<u64>, i: int) -> bool {
    faulted[i] * CRITICAL_THRESHOLD_DEN < baseline[i] * CRITICAL_THRESHOLD_NUM
}

/// Number of critical ticks in `[start, end)`.
pub open spec fn critical_count(baseline: Seq<u64>, faulted: Seq<u64>, start: int, end: int) -> nat
    decreases end - start,
{
    if end <= start {
        0
    } else {
        critical_count(baseline, faulted, start, end - 1) + if critical_at(
            baseline,
            faulted,
            end - 1,
        ) {
            1nat
        } else {
            0nat
        }
    }
}

/// Critical time as a fraction `(critical ticks, ticks)`, counted from the
/// first fault tick (1-indexed) to the end of the shorter series. `None`
/// (undefined) when there was no fault; `(0, 1)` when the fault tick is 0
/// or lies beyond the series.
pub open spec fn critical_time(
    baseline: Seq<u64>,
    faulted: Seq<u64>,
    first_gap_tick: Option<u64>,
) -> Option<(nat, nat)> {
    match first_gap_tick {
        None => None,
        Some(t) => if t == 0 {
            Some((0nat, 1nat))
        } else {
            let start = t - 1;
            let len = min_len(baseline, faulted);
            if start >= len {
                Some((0nat, 1nat))
            } else {
                Some((critical_count(baseline, faulted, start, len), (len - start) as nat))
            }
        },
    }
}

/// Compute the fraction of ticks where faulted throughput < threshold x
/// baseline throughput, counted from the first fault tick onward.
pub fn compute_critical_time(
    baseline_tp: &[u64],
    faulted_tp: &[u64],
    first_gap_tick: Option<u64>,
) -> (r: Option<(usize, usize)>)
    ensures
        r matches Some((below, total)) ==> critical_time(baseline_tp@, faulted_tp@, first_gap_tick)
            == Some((below as nat, total as nat)),
        r is None ==> critical_time(baseline_tp@, faulted_tp@, first_gap_tick) is None,
        r matches Some((below, total)) ==> below <= total && total > 0,
{
    let t = match first_gap_tick {
        Some(t) => t,
        None => return None,
    };
    if t == 0 {
        return Some((0, 1));
    }
    let len = if baseline_tp.len() < faulted_tp.len() {
        baseline_tp.len()
    } else {
        faulted_tp.len()
    };
    if t - 1 >= len as u64 {
        return Some((0, 1));
    }
    let start = (t - 1) as usize;
    let mut below: usize = 0;
    let mut i: usize = start;
    while i < len
        invariant
            start <= i <= len,
            len == min_len(baseline_tp@, faulted_tp@),
            len <= baseline_tp@.len(),
            len <= faulted_tp@.len(),
            below == critical_count(baseline_tp@, faulted_tp@, start as int, i as int),
            below <= i - start,
        decreases len - i,
    {
        let b = baseline_tp[i] as u128;
        let f = faulted_tp[i] as u128;
        proof {
            assert(b * CRITICAL_THRESHOLD_NUM <= b * 2) by (nonlinear_arith)
                requires
                    CRITICAL_THRESHOLD_NUM <= 2,
            ;
            assert(f * CRITICAL_THRESHOLD_DEN <= f * 2) by (nonlinear_arith)
                requires
                    CRITICAL_THRESHOLD_DEN <= 2,
            ;
        }
        let threshold: u128 = b * (CRITICAL_THRESHOLD_NUM as u128);
        if f * (CRITICAL_THRESHOLD_DEN as u128) < threshold {
            below = below + 1;
        }
        i = i + 1;
    }
    Some((below, len - start))
}

// ---------------------------------------------------------------------------
// Fault timeline of a faulted run (per-tick fault-event counts)
// ---------------------------------------------------------------------------

/// `r` is the index of the first tick with fault events, or `None` when
/// there are none.
pub open spec fn is_first_fault(event_counts: Seq<usize>, r: Option<usize>) -> bool {
    match r {
        Some(i) => i < event_counts.len() && event_counts[i as int] > 0 && forall|j: int|
            0 <= j < i ==> #[trigger] event_counts[j] == 0,
        None => forall|j: int| 0 <= j < event_counts.len() ==> #[trigger] event_counts[j] == 0,
    }
}

/// First tick (0-indexed) at which fault events occurred.
pub fn first_fault_index(event_counts: &[usize]) -> (r: Option<usize>)
    ensures
        is_first_fault(event_counts@, r),
{
    let mut i: usize = 0;
    while i < event_counts.len()
        invariant
            0 <= i <= event_counts@.len(),
            forall|j: int| 0 <= j < i ==> #[trigger] event_counts@[j] == 0,
        decreases event_counts@.len() - i,
    {
        if event_counts[i] != 0 {
            return Some(i);
        }
        i = i + 1;
    }
    None
}

/// The 1-indexed ticks, among the first `n`, with fault events, in order.
pub open spec fn fault_ticks_upto(event_counts: Seq<usize>, n: int) -> Seq<u64>
    decreases n,
{
    if n <= 0 {
        Seq::empty()
    } else {
        let r = fault_ticks_upto(event_counts, n - 1);
        if event_counts[n - 1] > 0 {
            r.push(n as u64)
        } else {
            r
        }
    }
}

/// The 1-indexed ticks with fault events, in order.
pub fn fault_ticks(event_counts: &[usize]) -> (r: Vec<u64>)
    ensures
        r@ == fault_ticks_upto(event_counts@, event_counts@.len() as int),
{
    let mut r: Vec<u64> = Vec::new();
    let mut i: usize = 0;
    while i < event_counts.len()
        invariant
            0 <= i <= event_counts@.len(),
            r@ == fault_ticks_upto(event_counts@, i as int),
        decreases event_counts@.len() - i,
    {
        if event_counts[i] > 0 {
            r.push(i as u64 + 1);
        }
        i = i + 1;
    }
    r
}

/// Agents alive before the faults of tick `i` fired: those alive after the
/// previous tick, or the whole initial fleet on the first tick.
pub open spec fn alive_before_fault(alive: Seq<usize>, dead: Seq<usize>, i: int) -> u32 {
    if i > 0 {
        alive[i - 1] as u32
    } else {
        let a: int = if alive.len() > 0 {
            alive[0] as int
        } else {
            0
        };
        let d: int = if dead.len() > 0 {
            dead[0] as int
        } else {
            0
        };
        (a + d) as u32
    }
}

/// `(events, agents alive before them)` for each tick among the first `n`
/// with fault events, in order.
pub open spec fn propagation_upto(
    event_counts: Seq<usize>,
    alive: Seq<usize>,
    dead: Seq<usize>,
    n: int,
) -> Seq<(u32, u32)>
    decreases n,
{
    if n <= 0 {
        Seq::empty()
    } else {
        let r = propagation_upto(event_counts, alive, dead, n - 1);
        if event_counts[n - 1] > 0 {
            r.push((event_counts[n - 1] as u32, alive_before_fault(alive, dead, n - 1)))
        } else {
            r
        }
    }
}

/// The fault events of each faulted tick against the population at risk.
/// The population is the alive count of the previous tick (the alive count
/// of a tick is recorded after its faults fired), or the initial fleet size
/// on the first tick.
pub fn propagation_events(
    event_counts: &[usize],
    alive_series: &[usize],
    dead_series: &[usize],
) -> (r: Vec<(u32, u32)>)
    requires
        forall|i: int|
            0 < i < event_counts@.len() && #[trigger] event_counts@[i] > 0 ==> i - 1
                < alive_series@.len(),
    ensures
        r@ == propagation_upto(
            event_counts@,
            alive_series@,
            dead_series@,
            event_counts@.len() as int,
        ),
{
    let mut r: Vec<(u32, u32)> = Vec::new();
    let mut i: usize = 0;
    while i < event_counts.len()
        invariant
            0 <= i <= event_counts@.len(),
            forall|k: int|
                0 < k < event_counts@.len() && #[trigger] event_counts@[k] > 0 ==> k - 1
                    < alive_series@.len(),
            r@ == propagation_upto(event_counts@, alive_series@, dead_series@, i as int),
        decreases event_counts@.len() - i,
    {
        let events = event_counts[i];
        if events > 0 {
            let before: u32 = if i > 0 {
                alive_series[i - 1] as u32
            } else {
                let a: u128 = if alive_series.len() > 0 {
                    alive_series[0] as u128
                } else {
                    0
                };
                let d: u128 = if dead_series.len() > 0 {
                    dead_series[0] as u128
                } else {
                    0
                };
                (a + d) as u32
            };
            r.push((events as u32, before));
        }
        i = i + 1;
    }
    r
}

/// Deficit recovery duration: ticks from the first cumulative task deficit
/// to full catch-up. `None` when a deficit occurred but never closed; 0 when
/// there was no deficit (or no catch-up after it).
pub open spec fn deficit_recovery_spec(recovery_tick: Option<u64>, first_gap_tick: Option<u64>) -> Option<u64> {
    match (recovery_tick, first_gap_tick) {
        (Some(recovery), Some(first_gap)) => if recovery > first_gap {
            Some((recovery - first_gap) as u64)
        } else {
            Some(0)
        },
        (None, Some(_)) => None,
        _ => Some(0),
    }
}

pub fn deficit_recovery(recovery_tick: Option<u64>, first_gap_tick: Option<u64>) -> (r: Option<u64>)
    ensures
        r == deficit_recovery_spec(recovery_tick, first_gap_tick),
{
    match (recovery_tick, first_gap_tick) {
        (Some(recovery), Some(first_gap)) => if recovery > first_gap {
            Some(recovery - first_gap)
        } else {
            Some(0)
        },
        (None, Some(_)) => None,
        _ => Some(0),
    }
}

proof fn lemma_fault_ticks_prefix(c: Seq<usize>, n: int, i: int)
    requires
        0 <= i < n <= c.len(),
        c.len() <= usize::MAX,
        c[i] > 0,
        forall|j: int| 0 <= j < i ==> #[trigger] c[j] == 0,
    ensures
        fault_ticks_upto(c, n).len() > 0,
        fault_ticks_upto(c, n)[0] == i + 1,
    decreases n,
{
    if n - 1 > i {
        lemma_fault_ticks_prefix(c, n - 1, i);
    } else {
        lemma_fault_ticks_none(c, i);
        assert(fault_ticks_upto(c, n) == fault_ticks_upto(c, i).push(n as u64));
    }
}

proof fn lemma_fault_ticks_none(c: Seq<usize>, n: int)
    requires
        0 <= n <= c.len(),
        forall|j: int| 0 <= j < n ==> #[trigger] c[j] == 0,
    ensures
        fault_ticks_upto(c, n).len() == 0,
    decreases n,
{
    if n > 0 {
        lemma_fault_ticks_none(c, n - 1);
    }
}

/// The fault onset and the fault ticks agree: the first fault tick
/// (1-indexed) is one past the index of the first tick with fault events,
/// and there are no fault ticks exactly when there is no fault.
pub proof fn lemma_onset_is_first_fault_tick(event_counts: Seq<usize>, r: Option<usize>)
    requires
        event_counts.len() <= usize::MAX,
        is_first_fault(event_counts, r),
    ensures
        r matches Some(i) ==> fault_ticks_upto(event_counts, event_counts.len() as int).len() > 0
            && fault_ticks_upto(event_counts, event_counts.len() as int)[0] == i + 1,
        r is None <==> fault_ticks_upto(event_counts, event_counts.len() as int).len() == 0,
{
    match r {
        Some(i) => {
            lemma_fault_ticks_prefix(event_counts, event_counts.len() as int, i as int);
        },
        None => {
            lemma_fault_ticks_none(event_counts, event_counts.len() as int);
        },
    }
}


/// A single tick counts as one critical tick exactly when it is critical.
pub proof fn lemma_critical_count_single(baseline: Seq<u64>, faulted: Seq<u64>, i: int)
    ensures
        critical_count(baseline, faulted, i, i + 1) == if critical_at(baseline, faulted, i) {
            1nat
        } else {
            0nat
        },
{
    assert(critical_count(baseline, faulted, i, i) == 0);
}

/// Critical ticks add up over adjacent ranges: every tick of `[start, end)`
/// is counted on its own, whatever the ticks before it were.
pub proof fn lemma_critical_count_split(
    baseline: Seq<u64>,
    faulted: Seq<u64>,
    start: int,
    mid: int,
    end: int,
)
    requires
        start <= mid <= end,
    ensures
        critical_count(baseline, faulted, start, end) == critical_count(
            baseline,
            faulted,
            start,
            mid,
        ) + critical_count(baseline, faulted, mid, end),
    decreases end - mid,
{
    if end > mid {
        lemma_critical_count_split(baseline, faulted, start, mid, end - 1);
    } else {
        assert(critical_count(baseline, faulted, mid, end) == 0);
    }
}

/// The critical count of a range is at most its length, and reaches it
/// exactly when every tick of the range is critical.
pub proof fn lemma_critical_count_full(baseline: Seq<u64>, faulted: Seq<u64>, start: int, end: int)
    requires
        start <= end,
    ensures
        critical_count(baseline, faulted, start, end) <= end - start,
        critical_count(baseline, faulted, start, end) == end - start <==> forall|i: int|
            start <= i < end ==> #[trigger] critical_at(baseline, faulted, i),
    decreases end - start,
{
    if end > start {
        lemma_critical_count_full(baseline, faulted, start, end - 1);
        if critical_count(baseline, faulted, start, end) == end - start {
            assert forall|i: int| start <= i < end implies #[trigger] critical_at(baseline, faulted, i) by {
                if i < end - 1 {
                    assert(critical_count(baseline, faulted, start, end - 1) == end - 1 - start);
                }
            }
        }
    }
}

} // verus!
