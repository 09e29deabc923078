//! Lifelong wrapper around a one-shot LaCAM3 planner: when to replan, how
//! shared goals are handed to a single agent before planning, and how a new
//! plan is adopted.

use vstd::prelude::*;

use std::collections::HashMap;

use crate::grid::{manhattan, manhattan_dist, IVec2};
use crate::task::TaskLeg;

verus! {

broadcast use vstd::std_specs::hash::group_hash_axioms;

/// Replan failsafe: recompute plan every K ticks even if nothing else changed.
pub const LACAM3_REPLAN_INTERVAL: u64 = 30;

/// Maximum search iterations per replan call.
pub const LACAM3_MAX_ITERS: usize = 5_000;

/// What a lifelong solver sees of an agent.
pub struct AgentState {
    pub index: usize,
    pub pos: IVec2,
    pub goal: Option<IVec2>,
    pub has_plan: bool,
    pub task_leg: TaskLeg,
}

/// The cell with row-major id `id` on a grid `width` cells wide.
pub open spec fn cell_of(id: usize, width: i32) -> IVec2 {
    IVec2 { x: (id % (width as usize)) as i32, y: (id / (width as usize)) as i32 }
}

/// The cell with row-major id `id` on a grid `width` cells wide.
pub fn id_to_pos(id: usize, width: i32) -> (c: IVec2)
    requires
        width > 0,
    ensures
        c == cell_of(id, width),
{
    let w = width as usize;
    IVec2 { x: (id % w) as i32, y: (id / w) as i32 }
}

// ---------------------------------------------------------------------------
// Goal deduplication
// ---------------------------------------------------------------------------

/// Agent `i` has somewhere to go.
pub open spec fn is_active(starts: Seq<IVec2>, goals: Seq<IVec2>, i: int) -> bool {
    goals[i] != starts[i]
}

pub open spec fn goal_dist(starts: Seq<IVec2>, goals: Seq<IVec2>, i: int) -> int {
    manhattan(goals[i], starts[i])
}

/// Among the first `n` agents, `i` keeps its goal: it is active and no
/// other active agent with the same goal is closer to it, nor as close and
/// earlier.
pub open spec fn keeps_goal_upto(starts: Seq<IVec2>, goals: Seq<IVec2>, i: int, n: int) -> bool {
    &&& is_active(starts, goals, i)
    &&& forall|j: int|
        0 <= j < n && j != i && is_active(starts, goals, j) && #[trigger] goals[j] == goals[i] ==> {
            &&& j < i ==> goal_dist(starts, goals, j) > goal_dist(starts, goals, i)
            &&& j > i ==> goal_dist(starts, goals, j) >= goal_dist(starts, goals, i)
        }
}

/// Agent `i` keeps its goal among all agents.
pub open spec fn keeps_goal(starts: Seq<IVec2>, goals: Seq<IVec2>, i: int) -> bool {
    keeps_goal_upto(starts, goals, i, goals.len() as int)
}

/// The goals handed to the planner: when several agents share a goal, the
/// closest one (the earliest on ties) keeps it and the others wait where
/// they are until the next replan.
pub open spec fn deduplicated(starts: Seq<IVec2>, goals: Seq<IVec2>) -> Seq<IVec2> {
    Seq::new(
        goals.len(),
        |i: int|
            if keeps_goal(starts, goals, i) {
                goals[i]
            } else {
                starts[i]
            },
    )
}

/// The key of a cell in the owner table; distinct cells get distinct keys.
pub open spec fn cell_key(c: IVec2) -> i128 {
    (c.x * 0x1_0000_0000int + c.y) as i128
}

fn key_of(c: IVec2) -> (k: i128)
    ensures
        k == cell_key(c),
{
    c.x as i128 * 0x1_0000_0000i128 + c.y as i128
}

/// Deduplicate goals: when several agents share a goal, the closest keeps
/// it, the others get their current position as a temporary goal.
pub fn deduplicate_goals(starts: &Vec<IVec2>, goals: Vec<IVec2>) -> (r: Vec<IVec2>)
    requires
        starts@.len() == goals@.len(),
    ensures
        r@ == deduplicated(starts@, goals@),
{
    let ghost g0 = goals@;
    let ghost s = starts@;
    let n = goals.len();
    let mut goals = goals;
    // goal key -> (owner, owner's distance)
    let mut goal_owner: HashMap<i128, (usize, i64)> = HashMap::new();
    let mut i: usize = 0;
    while i < n
        invariant
            n == g0.len(),
            n == s.len(),
            s == starts@,
            goals@.len() == n,
            0 <= i <= n,
            forall|k: i128|
                goal_owner@.contains_key(k) ==> exists|j: int|
                    0 <= j < i && is_active(s, g0, j) && cell_key(g0[j]) == k,
            forall|j: int|
                0 <= j < i && is_active(s, g0, j) ==> {
                    let e = goal_owner@[cell_key(#[trigger] g0[j])];
                    &&& goal_owner@.contains_key(cell_key(g0[j]))
                    &&& e.0 < i
                    &&& g0[e.0 as int] == g0[j]
                    &&& e.1 == goal_dist(s, g0, e.0 as int)
                    &&& keeps_goal_upto(s, g0, e.0 as int, i as int)
                },
            forall|j: int|
                0 <= j < i ==> #[trigger] goals@[j] == if keeps_goal_upto(s, g0, j, i as int) {
                    g0[j]
                } else {
                    s[j]
                },
            forall|j: int| i <= j < n ==> #[trigger] goals@[j] == g0[j],
        decreases n - i,
    {
        let ghost m0 = goal_owner@;
        if goals[i] != starts[i] {
            let dist = manhattan_dist(goals[i], starts[i]);
            let key = key_of(goals[i]);
            let existing: Option<(usize, i64)> = match goal_owner.get(&key) {
                Some(e) => Some(*e),
                None => None,
            };
            let defer = match existing {
                Some((_, owner_dist)) => owner_dist <= dist,
                None => false,
            };
            if defer {
                // Existing owner is closer; defer this agent.
                goals.set(i, starts[i]);
            } else {
                // This agent becomes the new owner; defer the previous owner.
                match goal_owner.insert(key, (i, dist)) {
                    Some((prev_owner, _)) => {
                        goals.set(prev_owner, starts[prev_owner]);
                    },
                    None => {},
                }
            }
        }
        proof {
            assert forall|k: i128| goal_owner@.contains_key(k) implies exists|j: int|
                0 <= j < i + 1 && is_active(s, g0, j) && cell_key(g0[j]) == k by {
                if m0.contains_key(k) {
                    let j = choose|j: int| 0 <= j < i && is_active(s, g0, j) && cell_key(g0[j]) == k;
                    assert(0 <= j < i + 1 && is_active(s, g0, j) && cell_key(g0[j]) == k);
                } else {
                    assert(0 <= i < i + 1 && is_active(s, g0, i as int) && cell_key(g0[i as int]) == k);
                }
            }
        }
        i = i + 1;
    }
    assert(goals@ =~= deduplicated(s, g0));
    goals
}

/// After deduplication, no two agents that still have somewhere to go share
/// a goal.
pub proof fn lemma_deduplicated_goals_distinct(starts: Seq<IVec2>, goals: Seq<IVec2>, i: int, j: int)
    requires
        starts.len() == goals.len(),
        0 <= i < goals.len(),
        0 <= j < goals.len(),
        i != j,
        deduplicated(starts, goals)[i] != starts[i],
        deduplicated(starts, goals)[j] != starts[j],
    ensures
        deduplicated(starts, goals)[i] != deduplicated(starts, goals)[j],
{
    let d = deduplicated(starts, goals);
    assert(keeps_goal(starts, goals, i));
    assert(keeps_goal(starts, goals, j));
    if goals[i] == goals[j] {
        assert(goals[j] == goals[i]);
    }
}

// ---------------------------------------------------------------------------
// The lifelong wrapper
// ---------------------------------------------------------------------------

/// The state of the wrapper, as contracts speak of it.
pub struct LaCAM3State {
    /// Cached plan: a sequence of configurations (one cell id per agent
    /// slot); `plan[0]` is the current state.
    pub plan: Seq<Seq<usize>>,
    /// Goals at the last replan, by external agent index.
    pub last_goals: Map<usize, IVec2>,
    pub last_agent_count: usize,
    pub last_replan_tick: u64,
    pub last_grid_width: i32,
    pub initialized: bool,
}

/// Wraps the one-shot LaCAM3 planner in a lifelong replan loop.
pub struct LaCAM3LifelongSolver {
    plan: Vec<Vec<usize>>,
    last_goals: HashMap<usize, IVec2>,
    last_agent_count: usize,
    last_replan_tick: u64,
    last_grid_width: i32,
    initialized: bool,
}

impl View for LaCAM3LifelongSolver {
    type V = LaCAM3State;

    closed spec fn view(&self) -> LaCAM3State {
        LaCAM3State {
            plan: Seq::new(self.plan@.len(), |k: int| self.plan@[k]@),
            last_goals: self.last_goals@,
            last_agent_count: self.last_agent_count,
            last_replan_tick: self.last_replan_tick,
            last_grid_width: self.last_grid_width,
            initialized: self.initialized,
        }
    }
}

impl LaCAM3State {
    /// The empty state of a fresh or reset solver.
    pub open spec fn fresh() -> LaCAM3State {
        LaCAM3State {
            plan: Seq::empty(),
            last_goals: Map::empty(),
            last_agent_count: 0,
            last_replan_tick: 0,
            last_grid_width: 0,
            initialized: false,
        }
    }

    /// A solver with a plan knows the width of the grid it was made on.
    pub open spec fn wf(self) -> bool {
        self.initialized ==> self.last_grid_width > 0
    }

    /// Agent `k`'s goal differs from the one recorded at the last replan.
    pub open spec fn goal_changed(self, agents: Seq<AgentState>, k: int) -> bool {
        agents[k].goal matches Some(g) && !(self.last_goals.contains_key(agents[k].index)
            && self.last_goals[agents[k].index] == g)
    }

    /// Agent `k` is not where the plan expects it.
    pub open spec fn drifted(self, agents: Seq<AgentState>, k: int) -> bool {
        k < self.plan[0].len() && cell_of(self.plan[0][k], self.last_grid_width) != agents[k].pos
    }

    /// When a replan is due: no plan yet, plan exhausted, the failsafe
    /// interval elapsed, the agent count changed, a goal changed, or an agent
    /// is not where the plan expects it.
    pub open spec fn replan_due(self, agents: Seq<AgentState>, tick: u64) -> bool {
        ||| !self.initialized
        ||| self.plan.len() <= 1
        ||| tick >= self.last_replan_tick && tick - self.last_replan_tick >= LACAM3_REPLAN_INTERVAL
        ||| agents.len() != self.last_agent_count
        ||| exists|k: int| 0 <= k < agents.len() && #[trigger] self.goal_changed(agents, k)
        ||| exists|k: int| 0 <= k < agents.len() && #[trigger] self.drifted(agents, k)
    }
}

impl Default for LaCAM3LifelongSolver {
    fn default() -> (s: Self)
        ensures
            s@ == LaCAM3State::fresh(),
    {
        Self::new()
    }
}

impl LaCAM3LifelongSolver {
    pub fn new() -> (s: Self)
        ensures
            s@ == LaCAM3State::fresh(),
    {
        let s = LaCAM3LifelongSolver {
            plan: Vec::new(),
            last_goals: HashMap::new(),
            last_agent_count: 0,
            last_replan_tick: 0,
            last_grid_width: 0,
            initialized: false,
        };
        assert(s@.plan =~= Seq::<Seq<usize>>::empty());
        s
    }

    pub fn name(&self) -> (s: &'static str)
        ensures
            s@ == "lacam3_lifelong"@,
    {
        "lacam3_lifelong"
    }

    pub fn reset(&mut self)
        ensures
            final(self)@ == LaCAM3State::fresh(),
    {
        self.plan.clear();
        self.last_goals.clear();
        self.last_agent_count = 0;
        self.last_replan_tick = 0;
        self.last_grid_width = 0;
        self.initialized = false;
        assert(self@.plan =~= Seq::<Seq<usize>>::empty());
    }

    /// Decide whether to trigger a replan this tick. Positions are compared
    /// by slot (position in `agents`), goals by external agent index.
    pub fn needs_replan(&self, agents: &[AgentState], tick: u64) -> (r: bool)
        requires
            self@.wf(),
        ensures
            r == self@.replan_due(agents@, tick),
    {
        if !self.initialized {
            return true;
        }
        if self.plan.len() <= 1 {
            return true;
        }
        if tick.saturating_sub(self.last_replan_tick) >= LACAM3_REPLAN_INTERVAL {
            return true;
        }
        if agents.len() != self.last_agent_count {
            return true;
        }
        let ghost st = self@;
        let mut k: usize = 0;
        while k < agents.len()
            invariant
                st == self@,
                0 <= k <= agents@.len(),
                forall|j: int| 0 <= j < k ==> !#[trigger] st.goal_changed(agents@, j),
            decreases agents@.len() - k,
        {
            let a = &agents[k];
            match a.goal {
                Some(goal) => {
                    match self.last_goals.get(&a.index) {
                        Some(old) => {
                            if *old != goal {
                                assert(st.goal_changed(agents@, k as int));
                                return true;
                            }
                        },
                        None => {
                            assert(st.goal_changed(agents@, k as int));
                            return true;
                        },
                    }
                },
                None => {},
            }
            k = k + 1;
        }
        let expected = &self.plan[0];
        let mut k: usize = 0;
        while k < agents.len()
            invariant
                st == self@,
                st.initialized,
                st.last_grid_width > 0,
                st.plan.len() > 1,
                expected@ == st.plan[0],
                0 <= k <= agents@.len(),
                forall|j: int| 0 <= j < k ==> !#[trigger] st.drifted(agents@, j),
            decreases agents@.len() - k,
        {
            if k < expected.len() {
                let expected_pos = id_to_pos(expected[k], self.last_grid_width);
                if expected_pos != agents[k].pos {
                    assert(st.drifted(agents@, k as int));
                    return true;
                }
            }
            k = k + 1;
        }
        false
    }
}

/// Goals of the first `n` agents by external index (later agents override
/// earlier ones with the same index); agents without a goal leave no entry.
pub open spec fn recorded_goals(agents: Seq<AgentState>, n: int) -> Map<usize, IVec2>
    decreases n,
{
    if n <= 0 {
        Map::empty()
    } else {
        let m = recorded_goals(agents, n - 1);
        match agents[n - 1].goal {
            Some(g) => m.insert(agents[n - 1].index, g),
            None => m,
        }
    }
}

/// The planning instance of a replan: every agent starts where it is and
/// heads for its goal (or stays put without one), with shared goals
/// deduplicated.
pub open spec fn instance_starts(agents: Seq<AgentState>) -> Seq<IVec2> {
    Seq::new(agents.len(), |k: int| agents[k].pos)
}

pub open spec fn instance_goals(agents: Seq<AgentState>) -> Seq<IVec2> {
    Seq::new(
        agents.len(),
        |k: int|
            match agents[k].goal {
                Some(g) => g,
                None => agents[k].pos,
            },
    )
}

impl LaCAM3LifelongSolver {
    /// First half of a replan: with no agents the plan is dropped and there
    /// is nothing to plan; otherwise the replan caches are updated and the
    /// planning instance (starts, deduplicated goals) is returned.
    pub fn begin_replan(&mut self, grid_width: i32, tick: u64, agents: &[AgentState]) -> (r: Option<
        (Vec<IVec2>, Vec<IVec2>),
    >)
        requires
            old(self)@.wf(),
            grid_width > 0,
        ensures
            final(self)@.wf(),
            agents@.len() == 0 ==> r is None && final(self)@ == (LaCAM3State {
                plan: Seq::empty(),
                ..old(self)@
            }),
            agents@.len() > 0 ==> (r matches Some((starts, goals)) && starts@ == instance_starts(
                agents@,
            ) && goals@ == deduplicated(instance_starts(agents@), instance_goals(agents@))),
            agents@.len() > 0 ==> final(self)@ == (LaCAM3State {
                last_goals: recorded_goals(agents@, agents@.len() as int),
                last_agent_count: agents@.len() as usize,
                last_grid_width: grid_width,
                last_replan_tick: tick,
                ..old(self)@
            }),
    {
        let n = agents.len();
        if n == 0 {
            self.plan.clear();
            assert(self@.plan =~= Seq::<Seq<usize>>::empty());
            return None;
        }
        let mut starts: Vec<IVec2> = Vec::new();
        let mut goals: Vec<IVec2> = Vec::new();
        let mut k: usize = 0;
        while k < n
            invariant
                n == agents@.len(),
                0 <= k <= n,
                starts@ =~= instance_starts(agents@).take(k as int),
                goals@ =~= instance_goals(agents@).take(k as int),
            decreases n - k,
        {
            let a = &agents[k];
            starts.push(a.pos);
            let g = match a.goal {
                Some(g) => g,
                None => a.pos,
            };
            goals.push(g);
            k = k + 1;
        }
        assert(starts@ =~= instance_starts(agents@));
        assert(goals@ =~= instance_goals(agents@));
        let goals = deduplicate_goals(&starts, goals);

        let ghost before = self@;
        self.last_goals.clear();
        let mut k: usize = 0;
        while k < n
            invariant
                n == agents@.len(),
                0 <= k <= n,
                self.last_goals@ == recorded_goals(agents@, k as int),
                self@ == (LaCAM3State { last_goals: self.last_goals@, ..before }),
                starts@ == instance_starts(agents@),
                goals@ == deduplicated(instance_starts(agents@), instance_goals(agents@)),
            decreases n - k,
        {
            let a = &agents[k];
            match a.goal {
                Some(g) => {
                    self.last_goals.insert(a.index, g);
                },
                None => {},
            }
            k = k + 1;
        }
        self.last_agent_count = n;
        self.last_grid_width = grid_width;
        self.last_replan_tick = tick;
        Some((starts, goals))
    }

    /// Second half of a replan: adopt the planner's solution; an empty
    /// solution (the planner failed) keeps the old plan.
    pub fn finish_replan(&mut self, solution: Vec<Vec<usize>>)
        requires
            old(self)@.last_grid_width > 0,
        ensures
            final(self)@.wf(),
            solution@.len() == 0 ==> final(self)@ == old(self)@,
            solution@.len() > 0 ==> final(self)@ == (LaCAM3State {
                plan: Seq::new(solution@.len(), |k: int| solution@[k]@),
                initialized: true,
                ..old(self)@
            }),
    {
        if solution.len() == 0 {
            return;
        }
        self.plan = solution;
        self.initialized = true;
    }
}

proof fn lemma_recorded_goal(agents: Seq<AgentState>, n: int, k: int)
    requires
        0 <= k < n <= agents.len(),
        forall|a: int, b: int|
            0 <= a < b < agents.len() ==> (#[trigger] agents[a]).index != (#[trigger] agents[b]).index,
    ensures
        agents[k].goal matches Some(g) ==> recorded_goals(agents, n).contains_key(agents[k].index)
            && recorded_goals(agents, n)[agents[k].index] == g,
    decreases n,
{
    if k < n - 1 {
        lemma_recorded_goal(agents, n - 1, k);
        assert(agents[k].index != agents[n - 1].index);
    }
}

/// Right after a replan at `tick` that produced a plan, with every agent
/// under its own index, the next replan is due at `tick` only when the plan
/// is already exhausted or an agent is not where the plan expects it.
pub proof fn lemma_replan_settles_goals(st: LaCAM3State, agents: Seq<AgentState>, tick: u64)
    requires
        forall|a: int, b: int|
            0 <= a < b < agents.len() ==> (#[trigger] agents[a]).index != (#[trigger] agents[b]).index,
        st.initialized,
        st.last_goals == recorded_goals(agents, agents.len() as int),
        st.last_agent_count == agents.len(),
        st.last_replan_tick == tick,
    ensures
        st.replan_due(agents, tick) == (st.plan.len() <= 1 || exists|k: int|
            0 <= k < agents.len() && #[trigger] st.drifted(agents, k)),
{
    assert forall|k: int| 0 <= k < agents.len() implies !#[trigger] st.goal_changed(agents, k) by {
        lemma_recorded_goal(agents, agents.len() as int, k);
    }
}

/// What agent slot `k` does in the tick from configuration `cur` to `next`:
/// stay put (`None`) when either configuration lacks the slot, otherwise
/// move between the two cells.
pub open spec fn transition(cur: Seq<usize>, next: Seq<usize>, width: i32, k: int) -> Option<
    (IVec2, IVec2),
> {
    if k < cur.len() && k < next.len() {
        Some((cell_of(cur[k], width), cell_of(next[k], width)))
    } else {
        None
    }
}

impl LaCAM3LifelongSolver {
    /// One tick of the cached plan: for each agent (by external index) the
    /// cells it moves between, or `None` to wait. With no agents nothing
    /// happens; with fewer than two configurations left every agent waits
    /// and the plan stays; otherwise the plan advances by one configuration.
    pub fn advance(&mut self, grid_width: i32, agents: &[AgentState]) -> (r: Vec<
        (usize, Option<(IVec2, IVec2)>),
    >)
        requires
            agents@.len() > 0 && old(self)@.plan.len() >= 2 ==> grid_width > 0,
        ensures
            r@.len() == agents@.len(),
            agents@.len() == 0 ==> final(self)@ == old(self)@,
            agents@.len() > 0 && old(self)@.plan.len() < 2 ==> final(self)@ == old(self)@ && forall|k: int|
                0 <= k < agents@.len() ==> #[trigger] r@[k] == (agents@[k].index, None::<
                    (IVec2, IVec2),
                >),
            agents@.len() > 0 && old(self)@.plan.len() >= 2 ==> final(self)@ == (LaCAM3State {
                plan: old(self)@.plan.drop_first(),
                ..old(self)@
            }) && forall|k: int|
                0 <= k < agents@.len() ==> #[trigger] r@[k] == (
                    agents@[k].index,
                    transition(old(self)@.plan[0], old(self)@.plan[1], grid_width, k),
                ),
    {
        let mut out: Vec<(usize, Option<(IVec2, IVec2)>)> = Vec::new();
        if agents.len() == 0 {
            return out;
        }
        if self.plan.len() < 2 {
            let mut k: usize = 0;
            while k < agents.len()
                invariant
                    0 <= k <= agents@.len(),
                    out@.len() == k,
                    forall|j: int| 0 <= j < k ==> #[trigger] out@[j] == (agents@[j].index, None::<
                        (IVec2, IVec2),
                    >),
                decreases agents@.len() - k,
            {
                out.push((agents[k].index, None));
                k = k + 1;
            }
            return out;
        }
        let ghost st = self@;
        {
            let cur = &self.plan[0];
            let next = &self.plan[1];
            let mut k: usize = 0;
            while k < agents.len()
                invariant
                    grid_width > 0,
                    st == self@,
                    st.plan.len() >= 2,
                    cur@ == st.plan[0],
                    next@ == st.plan[1],
                    0 <= k <= agents@.len(),
                    out@.len() == k,
                    forall|j: int|
                        0 <= j < k ==> #[trigger] out@[j] == (
                            agents@[j].index,
                            transition(st.plan[0], st.plan[1], grid_width, j),
                        ),
                decreases agents@.len() - k,
            {
                if k < cur.len() && k < next.len() {
                    let from = id_to_pos(cur[k], grid_width);
                    let to = id_to_pos(next[k], grid_width);
                    out.push((agents[k].index, Some((from, to))));
                } else {
                    out.push((agents[k].index, None));
                }
                k = k + 1;
            }
        }
        self.plan.remove(0);
        assert(self@.plan =~= st.plan.drop_first());
        out
    }
}


/// A replan is due whenever some agent has a goal that is not the one
/// recorded for its index at the last replan: none was recorded for it (it
/// was given a task since), or a different one was.
pub proof fn lemma_unrecorded_or_changed_goal_forces_replan(
    st: LaCAM3State,
    agents: Seq<AgentState>,
    tick: u64,
    k: int,
)
    requires
        0 <= k < agents.len(),
        agents[k].goal is Some,
        !st.last_goals.contains_key(agents[k].index) || st.last_goals[agents[k].index]
            != agents[k].goal->0,
    ensures
        st.replan_due(agents, tick),
{
    assert(st.goal_changed(agents, k));
}

/// When no replan is due, every agent with a goal has exactly that goal
/// recorded for its index at the last replan.
pub proof fn lemma_no_replan_means_goals_recorded(
    st: LaCAM3State,
    agents: Seq<AgentState>,
    tick: u64,
    k: int,
)
    requires
        0 <= k < agents.len(),
        agents[k].goal is Some,
        !st.replan_due(agents, tick),
    ensures
        st.last_goals.contains_key(agents[k].index),
        st.last_goals[agents[k].index] == agents[k].goal->0,
{
    if !st.last_goals.contains_key(agents[k].index) || st.last_goals[agents[k].index]
        != agents[k].goal->0 {
        lemma_unrecorded_or_changed_goal_forces_replan(st, agents, tick, k);
    }
}


/// Each of these alone makes a replan due: no plan has been made yet, the
/// plan has no step left, the failsafe interval has passed since the last
/// replan, the number of agents changed, or an agent stands somewhere other
/// than the cell the plan holds for its slot.
pub proof fn lemma_replan_triggers(st: LaCAM3State, agents: Seq<AgentState>, tick: u64, k: int)
    ensures
        !st.initialized ==> st.replan_due(agents, tick),
        st.plan.len() <= 1 ==> st.replan_due(agents, tick),
        tick >= st.last_replan_tick + LACAM3_REPLAN_INTERVAL ==> st.replan_due(agents, tick),
        agents.len() != st.last_agent_count ==> st.replan_due(agents, tick),
        0 <= k < agents.len() && st.plan.len() > 0 && k < st.plan[0].len() && cell_of(
            st.plan[0][k],
            st.last_grid_width,
        ) != agents[k].pos ==> st.replan_due(agents, tick),
{
    if 0 <= k < agents.len() && st.plan.len() > 0 && k < st.plan[0].len() && cell_of(
        st.plan[0][k],
        st.last_grid_width,
    ) != agents[k].pos {
        assert(st.drifted(agents, k));
    }
}

} // verus!
