use vstd::prelude::*;

use rand_chacha::ChaCha8Rng;

use crate::grid::{CellSet, IVec2};
use crate::schedulers::{is_free, TaskScheduler};
use crate::task::{TaskLeg, ZoneMap};

verus! {

/// Agent snapshot for the recycle_goals core function.
pub struct TaskAgentSnapshot {
    pub pos: IVec2,
    pub goal: IVec2,
    pub task_leg: TaskLeg,
    pub alive: bool,
}

/// Per-agent update from recycle_goals_core.
pub struct TaskUpdate {
    pub task_leg: TaskLeg,
    pub goal: IVec2,
    pub path_cleared: bool,
}

/// Aggregate result from recycle_goals_core.
pub struct RecycleResult {
    pub updates: Vec<TaskUpdate>,
    pub completion_ticks: Vec<u64>,
    pub needs_replan: bool,
    /// Agent indices that just entered Loading this tick (must NOT be
    /// processed by the queue manager on the same tick, so that Loading is
    /// visible for at least one tick).
    pub just_loaded: Vec<usize>,
}

/// An agent that is alive and standing on its goal; only such agents change
/// leg.
pub open spec fn at_goal(a: TaskAgentSnapshot) -> bool {
    a.alive && a.pos == a.goal
}

/// An alive agent still on its way to goal `g` holds `g`.
pub open spec fn holds_goal(a: TaskAgentSnapshot, g: IVec2) -> bool {
    a.alive && a.pos != a.goal && a.goal == g
}

/// `g` is claimed before agent `earlier.len()` is handled: held by an agent
/// on its way, or newly assigned to one of the agents before it.
pub open spec fn claimed(agents: Seq<TaskAgentSnapshot>, earlier: Seq<TaskUpdate>, g: IVec2) -> bool {
    ||| exists|j: int| 0 <= j < agents.len() && #[trigger] holds_goal(agents[j], g)
    ||| exists|j: int| 0 <= j < earlier.len() && (#[trigger] earlier[j]).path_cleared && earlier[j].goal == g
}

pub open spec fn unchanged(a: TaskAgentSnapshot, u: TaskUpdate) -> bool {
    u.task_leg == a.task_leg && u.goal == a.goal && !u.path_cleared
}

/// The update of agent `i`, given the updates of the agents before it.
pub open spec fn update_ok(
    agents: Seq<TaskAgentSnapshot>,
    updates: Seq<TaskUpdate>,
    pickups: Seq<IVec2>,
    i: int,
) -> bool {
    let a = agents[i];
    let u = updates[i];
    let earlier = updates.take(i);
    if !at_goal(a) {
        unchanged(a, u)
    } else {
        match a.task_leg {
            TaskLeg::Free => if u.path_cleared {
                // a new pickup: a pickup cell, not its own cell, not claimed
                &&& u.task_leg == TaskLeg::TravelEmpty(u.goal)
                &&& pickups.contains(u.goal)
                &&& u.goal != a.pos
                &&& !claimed(agents, earlier, u.goal)
            } else {
                // left waiting: every pickup cell is its own or claimed
                &&& unchanged(a, u)
                &&& forall|k: int|
                    0 <= k < pickups.len() ==> #[trigger] pickups[k] == a.pos || claimed(
                        agents,
                        earlier,
                        pickups[k],
                    )
            },
            TaskLeg::TravelEmpty(c) => u.task_leg == TaskLeg::Loading(c) && u.goal == a.goal
                && !u.path_cleared,
            TaskLeg::TravelLoaded { .. } => u.task_leg == TaskLeg::Free && u.goal == a.goal
                && !u.path_cleared,
            _ => unchanged(a, u),
        }
    }
}

/// Number of deliveries completed among the first `n` agents.
pub open spec fn completions(agents: Seq<TaskAgentSnapshot>, n: int) -> nat
    decreases n,
{
    if n <= 0 {
        0
    } else {
        completions(agents, n - 1) + if at_goal(agents[n - 1])
            && agents[n - 1].task_leg is TravelLoaded {
            1nat
        } else {
            0nat
        }
    }
}

/// Indices, in order, of the agents among the first `n` that reach their
/// pickup cell.
pub open spec fn loaded_indices(agents: Seq<TaskAgentSnapshot>, n: int) -> Seq<usize>
    decreases n,
{
    if n <= 0 {
        Seq::empty()
    } else {
        let r = loaded_indices(agents, n - 1);
        if at_goal(agents[n - 1]) && agents[n - 1].task_leg is TravelEmpty {
            r.push((n - 1) as usize)
        } else {
            r
        }
    }
}

/// Agent `i` was given a new pickup or finished a delivery.
pub open spec fn triggers_replan(
    agents: Seq<TaskAgentSnapshot>,
    updates: Seq<TaskUpdate>,
    i: int,
) -> bool {
    at_goal(agents[i]) && (agents[i].task_leg is TravelLoaded || (agents[i].task_leg is Free
        && updates[i].path_cleared))
}

/// Goals held by alive agents on their way among the first `n` agents, each
/// once, in agent order.
pub open spec fn held_upto(agents: Seq<TaskAgentSnapshot>, n: int) -> Seq<IVec2>
    decreases n,
{
    if n <= 0 {
        Seq::empty()
    } else {
        let s = held_upto(agents, n - 1);
        let a = agents[n - 1];
        if a.alive && a.pos != a.goal && !s.contains(a.goal) {
            s.push(a.goal)
        } else {
            s
        }
    }
}

/// The new pickup cells among `earlier`, in order.
pub open spec fn assigned_pickups(earlier: Seq<TaskUpdate>) -> Seq<IVec2>
    decreases earlier.len(),
{
    if earlier.len() == 0 {
        Seq::empty()
    } else {
        let s = assigned_pickups(earlier.drop_last());
        if earlier.last().path_cleared {
            s.push(earlier.last().goal)
        } else {
            s
        }
    }
}

/// The claimed cells handed to the scheduler for agent `earlier.len()`, in
/// the order they were claimed: held goals first, then the pickups given to
/// the agents before it.
pub open spec fn claimed_cells(agents: Seq<TaskAgentSnapshot>, earlier: Seq<TaskUpdate>) -> Seq<
    IVec2,
> {
    held_upto(agents, agents.len() as int) + assigned_pickups(earlier)
}

/// The new pickup of an update, if any.
pub open spec fn new_pickup(u: TaskUpdate) -> Option<IVec2> {
    if u.path_cleared {
        Some(u.goal)
    } else {
        None
    }
}

/// Agent `k` is free and on its goal, so the scheduler is asked for a pickup.
pub open spec fn asks_for_pickup(agents: Seq<TaskAgentSnapshot>, k: int) -> bool {
    at_goal(agents[k]) && agents[k].task_leg is Free
}

proof fn lemma_claimed_cells_push(
    agents: Seq<TaskAgentSnapshot>,
    earlier: Seq<TaskUpdate>,
    u: TaskUpdate,
)
    ensures
        claimed_cells(agents, earlier.push(u)) == if u.path_cleared {
            claimed_cells(agents, earlier).push(u.goal)
        } else {
            claimed_cells(agents, earlier)
        },
{
    assert(earlier.push(u).drop_last() == earlier);
    let h = held_upto(agents, agents.len() as int);
    if u.path_cleared {
        assert(h + assigned_pickups(earlier).push(u.goal) =~= (h + assigned_pickups(
            earlier,
        )).push(u.goal));
    }
}

proof fn lemma_claimed_push(
    agents: Seq<TaskAgentSnapshot>,
    earlier: Seq<TaskUpdate>,
    u: TaskUpdate,
    g: IVec2,
)
    ensures
        claimed(agents, earlier.push(u), g) <==> claimed(agents, earlier, g) || (u.path_cleared
            && u.goal == g),
{
    let e = earlier.push(u);
    if exists|j: int| 0 <= j < e.len() && (#[trigger] e[j]).path_cleared && e[j].goal == g {
        let j = choose|j: int| 0 <= j < e.len() && (#[trigger] e[j]).path_cleared && e[j].goal == g;
        if j < earlier.len() {
            assert(earlier[j] == e[j]);
        }
    }
    if exists|j: int|
        0 <= j < earlier.len() && (#[trigger] earlier[j]).path_cleared && earlier[j].goal == g {
        let j = choose|j: int|
            0 <= j < earlier.len() && (#[trigger] earlier[j]).path_cleared && earlier[j].goal == g;
        assert(e[j] == earlier[j]);
    }
    if u.path_cleared && u.goal == g {
        assert(e[earlier.len() as int] == u);
    }
}

/// Pure task recycling logic: checks agents at goal, assigns new tasks.
///
/// Agents at their goal move on by one leg: `Free` gets a new pickup cell
/// (`TravelEmpty`) when one is free, `TravelEmpty` becomes `Loading` (and is
/// reported in `just_loaded`), `TravelLoaded` completes a delivery and
/// becomes `Free` (not immediately `TravelEmpty`). Dead agents and agents
/// still travelling are left as they are. A new pickup is what the given
/// scheduler chooses for the agent's position with the claimed cells: goals
/// held by agents on their way and pickups given earlier in the same call,
/// so it is never one of those. The generator is drawn from only by the
/// scheduler's choices.
pub fn recycle_goals_core(
    agents: &[TaskAgentSnapshot],
    scheduler: &dyn TaskScheduler,
    zones: &ZoneMap,
    rng: &mut ChaCha8Rng,
    tick: u64,
) -> (r: RecycleResult)
    ensures
        r.updates@.len() == agents@.len(),
        forall|k: int|
            0 <= k < agents@.len() ==> #[trigger] update_ok(
                agents@,
                r.updates@,
                zones.pickup_cells@,
                k,
            ),
        r.completion_ticks@ == Seq::new(completions(agents@, agents@.len() as int), |k: int| tick),
        r.just_loaded@ == loaded_indices(agents@, agents@.len() as int),
        forall|j: int|
            0 <= j < r.just_loaded@.len() ==> {
                let k = #[trigger] r.just_loaded@[j] as int;
                &&& 0 <= k < agents@.len()
                &&& agents@[k].task_leg is TravelEmpty
                &&& r.updates@[k].task_leg is Loading
            },
        r.needs_replan == exists|k: int|
            0 <= k < agents@.len() && #[trigger] triggers_replan(agents@, r.updates@, k),
        forall|k: int|
            0 <= k < agents@.len() && #[trigger] asks_for_pickup(agents@, k)
                ==> scheduler.pickup_choice(
                zones.pickup_cells@,
                zones.delivery_cells@,
                agents@[k].pos,
                claimed_cells(agents@, r.updates@.take(k)),
                new_pickup(r.updates@[k]),
            ),
        (forall|k: int|
            0 <= k < agents@.len() && #[trigger] asks_for_pickup(agents@, k)
                ==> !scheduler.may_draw(claimed_cells(agents@, r.updates@.take(k))))
            ==> *final(rng) == *old(rng),
{
    let n = agents.len();
    // Goals already held by agents on their way.
    let mut used_goals = CellSet::new();
    let mut i: usize = 0;
    while i < n
        invariant
            n == agents@.len(),
            0 <= i <= n,
            forall|g: IVec2|
                used_goals.elems().contains(g) <==> exists|j: int|
                    0 <= j < i && #[trigger] holds_goal(agents@[j], g),
            used_goals.elems() == held_upto(agents@, i as int),
        decreases n - i,
    {
        let a = &agents[i];
        let ghost prev = used_goals.elems();
        if a.alive && a.pos != a.goal {
            used_goals.insert(a.goal);
        }
        proof {
            assert forall|g: IVec2|
                used_goals.elems().contains(g) <==> exists|j: int|
                    0 <= j < i + 1 && #[trigger] holds_goal(agents@[j], g) by {
                if holds_goal(agents@[i as int], g) {
                    assert(used_goals.elems().contains(g));
                }
                if used_goals.elems().contains(g) && !prev.contains(g) {
                    assert(holds_goal(agents@[i as int], g));
                }
            }
        }
        i = i + 1;
    }

    let mut updates: Vec<TaskUpdate> = Vec::new();
    let mut i: usize = 0;
    while i < n
        invariant
            n == agents@.len(),
            0 <= i <= n,
            updates@.len() == i,
            forall|j: int| 0 <= j < i ==> #[trigger] unchanged(agents@[j], updates@[j]),
        decreases n - i,
    {
        let a = &agents[i];
        updates.push(TaskUpdate { task_leg: a.task_leg, goal: a.goal, path_cleared: false });
        i = i + 1;
    }

    let mut completion_ticks: Vec<u64> = Vec::new();
    let mut needs_replan = false;
    let mut just_loaded: Vec<usize> = Vec::new();

    let mut i: usize = 0;
    while i < n
        invariant
            n == agents@.len(),
            0 <= i <= n,
            updates@.len() == n,
            forall|j: int| i <= j < n ==> #[trigger] unchanged(agents@[j], updates@[j]),
            forall|j: int|
                0 <= j < i ==> #[trigger] update_ok(agents@, updates@, zones.pickup_cells@, j),
            forall|g: IVec2|
                used_goals.elems().contains(g) <==> claimed(agents@, updates@.take(i as int), g),
            completion_ticks@ == Seq::new(completions(agents@, i as int), |k: int| tick),
            just_loaded@ == loaded_indices(agents@, i as int),
            needs_replan == exists|j: int| 0 <= j < i && #[trigger] triggers_replan(agents@, updates@, j),
            used_goals.elems() == claimed_cells(agents@, updates@.take(i as int)),
            forall|j: int|
                0 <= j < i && #[trigger] asks_for_pickup(agents@, j) ==> scheduler.pickup_choice(
                    zones.pickup_cells@,
                    zones.delivery_cells@,
                    agents@[j].pos,
                    claimed_cells(agents@, updates@.take(j)),
                    new_pickup(updates@[j]),
                ),
            (forall|j: int|
                0 <= j < i && #[trigger] asks_for_pickup(agents@, j) ==> !scheduler.may_draw(
                    claimed_cells(agents@, updates@.take(j)),
                )) ==> *rng == *old(rng),
        decreases n - i,
    {
        let ghost before = updates@;
        let ghost used0 = used_goals.elems();
        let ghost rng0 = *rng;
        let ghost mut picked: Option<IVec2> = None;
        assert(unchanged(agents@[i as int], before[i as int]));
        let a = &agents[i];
        if a.alive && a.pos == a.goal {
            match a.task_leg {
                TaskLeg::Free => {
                    let choice = scheduler.assign_pickup(zones, a.pos, &used_goals, rng);
                    proof {
                        picked = choice;
                    }
                    match choice {
                        Some(pickup) => {
                            updates.set(
                                i,
                                TaskUpdate {
                                    task_leg: TaskLeg::TravelEmpty(pickup),
                                    goal: pickup,
                                    path_cleared: true,
                                },
                            );
                            used_goals.insert(pickup);
                            needs_replan = true;
                            assert(updates@.take(i as int) =~= before.take(i as int));
                            assert(update_ok(agents@, updates@, zones.pickup_cells@, i as int));
                        },
                        None => {
                            assert(updates@ == before);
                            assert(update_ok(agents@, updates@, zones.pickup_cells@, i as int));
                        },
                    }
                },
                TaskLeg::TravelEmpty(pickup_cell) => {
                    updates.set(
                        i,
                        TaskUpdate {
                            task_leg: TaskLeg::Loading(pickup_cell),
                            goal: a.goal,
                            path_cleared: false,
                        },
                    );
                    just_loaded.push(i);
                },
                TaskLeg::TravelLoaded { .. } => {
                    updates.set(
                        i,
                        TaskUpdate { task_leg: TaskLeg::Free, goal: a.goal, path_cleared: false },
                    );
                    completion_ticks.push(tick);
                    needs_replan = true;
                },
                _ => {},
            }
        }
        proof {
            let new = updates@;
            assert(new.take(i + 1) =~= before.take(i as int).push(new[i as int]));
            assert forall|j: int| 0 <= j < i implies #[trigger] update_ok(
                agents@,
                new,
                zones.pickup_cells@,
                j,
            ) by {
                assert(new.take(j) =~= before.take(j));
                assert(new[j] == before[j]);
                assert(update_ok(agents@, before, zones.pickup_cells@, j));
            }
            assert(new.take(i as int) =~= before.take(i as int));
            assert(update_ok(agents@, new, zones.pickup_cells@, i as int));
            assert forall|g: IVec2|
                used_goals.elems().contains(g) <==> claimed(agents@, new.take(i + 1), g) by {
                lemma_claimed_push(agents@, before.take(i as int), new[i as int], g);
            }
            assert(completion_ticks@ =~= Seq::new(completions(agents@, i + 1), |k: int| tick));
            lemma_claimed_cells_push(agents@, before.take(i as int), new[i as int]);
            if asks_for_pickup(agents@, i as int) {
                assert(new_pickup(new[i as int]) == picked);
                assert(used0 == claimed_cells(agents@, new.take(i as int)));
            }
            assert forall|j: int|
                0 <= j < i + 1 && #[trigger] asks_for_pickup(agents@, j) implies scheduler.pickup_choice(
                zones.pickup_cells@,
                zones.delivery_cells@,
                agents@[j].pos,
                claimed_cells(agents@, new.take(j)),
                new_pickup(new[j]),
            ) by {
                if j < i {
                    assert(new.take(j) =~= before.take(j));
                    assert(new[j] == before[j]);
                }
            }
            if forall|j: int|
                0 <= j < i + 1 && #[trigger] asks_for_pickup(agents@, j) ==> !scheduler.may_draw(
                    claimed_cells(agents@, new.take(j)),
                ) {
                assert forall|j: int|
                    0 <= j < i && #[trigger] asks_for_pickup(agents@, j) implies !scheduler.may_draw(
                    claimed_cells(agents@, before.take(j)),
                ) by {
                    assert(new.take(j) =~= before.take(j));
                }
                if asks_for_pickup(agents@, i as int) {
                    assert(!scheduler.may_draw(used0));
                }
                assert(*rng == rng0);
            }
            assert forall|j: int| 0 <= j < i implies #[trigger] triggers_replan(agents@, new, j)
                == triggers_replan(agents@, before, j) by {
                assert(new[j] == before[j]);
            }
            if triggers_replan(agents@, new, i as int) {
                assert(needs_replan);
            } else {
                if exists|j: int| 0 <= j < i + 1 && #[trigger] triggers_replan(agents@, new, j) {
                    let j = choose|j: int|
                        0 <= j < i + 1 && #[trigger] triggers_replan(agents@, new, j);
                    assert(triggers_replan(agents@, before, j));
                }
                if exists|j: int| 0 <= j < i && #[trigger] triggers_replan(agents@, before, j) {
                    let j = choose|j: int|
                        0 <= j < i && #[trigger] triggers_replan(agents@, before, j);
                    assert(triggers_replan(agents@, new, j));
                }
            }
        }
        i = i + 1;
    }

    assert(needs_replan == exists|j: int|
        0 <= j < agents@.len() && #[trigger] triggers_replan(agents@, updates@, j));
    let r = RecycleResult { updates, completion_ticks, needs_replan, just_loaded };
    assert(r.updates@ == updates@);
    assert(r.needs_replan == exists|k: int|
        0 <= k < agents@.len() && #[trigger] triggers_replan(agents@, r.updates@, k));
    proof {
        lemma_just_loaded_are_pickup_arrivals(agents@, agents@.len() as int);
        assert forall|j: int| 0 <= j < r.just_loaded@.len() implies {
            let k = #[trigger] r.just_loaded@[j] as int;
            &&& 0 <= k < agents@.len()
            &&& agents@[k].task_leg is TravelEmpty
            &&& r.updates@[k].task_leg is Loading
        } by {
            let k = r.just_loaded@[j] as int;
            assert(loaded_indices(agents@, agents@.len() as int)[j] as int == k);
            assert(update_ok(agents@, r.updates@, zones.pickup_cells@, k));
        }
    }
    r
}

/// In one recycling pass no two agents are given the same new pickup cell,
/// and no new pickup cell is a goal that an alive agent on its way holds.
pub proof fn lemma_new_pickups_are_exclusive(
    agents: Seq<TaskAgentSnapshot>,
    updates: Seq<TaskUpdate>,
    pickups: Seq<IVec2>,
    i: int,
    j: int,
)
    requires
        updates.len() == agents.len(),
        forall|k: int| 0 <= k < agents.len() ==> #[trigger] update_ok(agents, updates, pickups, k),
        0 <= i < agents.len(),
        0 <= j < agents.len(),
        updates[j].path_cleared,
    ensures
        i != j && updates[i].path_cleared ==> updates[i].goal != updates[j].goal,
        !holds_goal(agents[i], updates[j].goal),
{
    assert(update_ok(agents, updates, pickups, j));
    assert(update_ok(agents, updates, pickups, i));
    if i < j && updates[i].path_cleared && updates[i].goal == updates[j].goal {
        assert(updates.take(j)[i] == updates[i]);
    }
    if j < i && updates[i].path_cleared && updates[i].goal == updates[j].goal {
        assert(updates.take(i)[j] == updates[j]);
    }
}


/// The agents reported as just loaded are exactly, in increasing order, the
/// alive agents standing on their goal with a `TravelEmpty` leg: each one
/// reached its pickup cell in this pass. An agent already `Loading`, or
/// in any other leg, is never reported.
pub proof fn lemma_just_loaded_are_pickup_arrivals(agents: Seq<TaskAgentSnapshot>, n: int)
    requires
        0 <= n <= agents.len(),
        agents.len() <= usize::MAX,
    ensures
        forall|j: int|
            0 <= j < loaded_indices(agents, n).len() ==> {
                let k = #[trigger] loaded_indices(agents, n)[j] as int;
                &&& 0 <= k < n
                &&& agents[k].alive
                &&& agents[k].pos == agents[k].goal
                &&& agents[k].task_leg is TravelEmpty
            },
        forall|j1: int, j2: int|
            0 <= j1 < j2 < loaded_indices(agents, n).len() ==> loaded_indices(agents, n)[j1]
                < loaded_indices(agents, n)[j2],
        forall|k: int|
            0 <= k < n && (#[trigger] agents[k]).alive && agents[k].pos == agents[k].goal
                && agents[k].task_leg is TravelEmpty ==> loaded_indices(agents, n).contains(
                k as usize,
            ),
    decreases n,
{
    if n > 0 {
        lemma_just_loaded_are_pickup_arrivals(agents, n - 1);
        let r = loaded_indices(agents, n - 1);
        let a = agents[n - 1];
        if a.alive && a.pos == a.goal && a.task_leg is TravelEmpty {
            let r2 = r.push((n - 1) as usize);
            assert(loaded_indices(agents, n) == r2);
            assert(r2[r.len() as int] as int == n - 1);
            assert forall|j: int| 0 <= j < r.len() implies r2[j] == r[j] && (r[j] as int) < n - 1 by {
                assert(r[j] == loaded_indices(agents, n - 1)[j]);
            }
            assert forall|k: int|
                0 <= k < n && (#[trigger] agents[k]).alive && agents[k].pos == agents[k].goal
                    && agents[k].task_leg is TravelEmpty implies r2.contains(k as usize) by {
                if k < n - 1 {
                    let j = choose|j: int| 0 <= j < r.len() && r[j] == k as usize;
                    assert(r2[j] == k as usize);
                } else {
                    assert(r2[r.len() as int] == k as usize);
                }
            }
        } else {
            assert(loaded_indices(agents, n) == r);
            assert forall|k: int|
                0 <= k < n && (#[trigger] agents[k]).alive && agents[k].pos == agents[k].goal
                    && agents[k].task_leg is TravelEmpty implies r.contains(k as usize) by {
                assert(k < n - 1);
            }
        }
    }
}


/// Deliveries add up over the agent list: the deliveries among the first
/// `n` agents are those among the first `m` plus those among agents `m` to
/// `n`, each agent counted on its own.
pub proof fn lemma_completions_split(agents: Seq<TaskAgentSnapshot>, m: int, n: int)
    requires
        0 <= m <= n <= agents.len(),
    ensures
        completions(agents, n) == completions(agents, m) + completions(agents.subrange(m, n), n - m),
    decreases n - m,
{
    if n > m {
        lemma_completions_split(agents, m, n - 1);
        let t = agents.subrange(m, n);
        assert(t.subrange(0, n - 1 - m) =~= agents.subrange(m, n - 1));
        lemma_completions_prefix(t, n - 1 - m);
        assert(t[n - 1 - m] == agents[n - 1]);
    }
}

proof fn lemma_completions_prefix(s: Seq<TaskAgentSnapshot>, n: int)
    requires
        0 <= n <= s.len(),
    ensures
        completions(s, n) == completions(s.subrange(0, n), n),
    decreases n,
{
    if n > 0 {
        lemma_completions_prefix(s, n - 1);
        let p = s.subrange(0, n);
        assert(p.subrange(0, n - 1) =~= s.subrange(0, n - 1));
        lemma_completions_prefix(p, n - 1);
        assert(p[n - 1] == s[n - 1]);
    }
}

/// A single agent completes a delivery exactly when it is alive, standing
/// on its goal, and carrying cargo (`TravelLoaded`).
pub proof fn lemma_completions_single(a: TaskAgentSnapshot)
    ensures
        completions(seq![a], 1) == if a.alive && a.pos == a.goal && a.task_leg is TravelLoaded {
            1nat
        } else {
            0nat
        },
{
    assert(completions(seq![a], 0) == 0);
    assert(seq![a][0] == a);
}

} // verus!
