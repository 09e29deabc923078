use mafis::grid::IVec2;
use mafis::lacam3::{deduplicate_goals, id_to_pos, AgentState, LaCAM3LifelongSolver};
use mafis::task::TaskLeg;

fn agent(index: usize, pos: IVec2, goal: Option<IVec2>) -> AgentState {
    AgentState { index, pos, goal, has_plan: false, task_leg: TaskLeg::Free }
}

#[test]
fn shared_goal_goes_to_the_closest_agent() {
    let starts = vec![IVec2::new(0, 0), IVec2::new(1, 0), IVec2::new(9, 9)];
    let goals = vec![IVec2::new(5, 0), IVec2::new(5, 0), IVec2::new(9, 9)];
    let r = deduplicate_goals(&starts, goals);
    assert_eq!(r, vec![IVec2::new(0, 0), IVec2::new(5, 0), IVec2::new(9, 9)]);
}

#[test]
fn shared_goal_tie_goes_to_the_earliest_agent() {
    let starts = vec![IVec2::new(0, 0), IVec2::new(4, 4), IVec2::new(10, 0)];
    let goals = vec![IVec2::new(5, 0), IVec2::new(5, 0), IVec2::new(5, 0)];
    let r = deduplicate_goals(&starts, goals);
    assert_eq!(r, vec![IVec2::new(5, 0), IVec2::new(4, 4), IVec2::new(10, 0)]);
}

#[test]
fn cell_ids_are_row_major() {
    assert_eq!(id_to_pos(0, 5), IVec2::new(0, 0));
    assert_eq!(id_to_pos(7, 5), IVec2::new(2, 1));
    assert_eq!(id_to_pos(24, 5), IVec2::new(4, 4));
}

#[test]
fn replan_lifecycle() {
    let mut solver = LaCAM3LifelongSolver::new();
    let agents = vec![agent(3, IVec2::new(0, 0), Some(IVec2::new(2, 0))), agent(8, IVec2::new(0, 1), None)];
    // No plan yet.
    assert!(solver.needs_replan(&agents, 0));
    let (starts, goals) = solver.begin_replan(5, 0, &agents).unwrap();
    assert_eq!(starts, vec![IVec2::new(0, 0), IVec2::new(0, 1)]);
    assert_eq!(goals, vec![IVec2::new(2, 0), IVec2::new(0, 1)]);
    // A failed plan keeps the solver without a plan.
    solver.finish_replan(Vec::new());
    assert!(solver.needs_replan(&agents, 0));
    // Cell ids on a 5-wide grid: (0,0)=0, (1,0)=1, (2,0)=2, (0,1)=5.
    solver.finish_replan(vec![vec![0, 5], vec![1, 5], vec![2, 5]]);
    assert!(!solver.needs_replan(&agents, 0));
    // Failsafe interval.
    assert!(solver.needs_replan(&agents, 30));
    assert!(!solver.needs_replan(&agents, 29));
    // Goal changes and position drift trigger a replan.
    let moved_goal = vec![agent(3, IVec2::new(0, 0), Some(IVec2::new(3, 0))), agent(8, IVec2::new(0, 1), None)];
    assert!(solver.needs_replan(&moved_goal, 1));
    let drifted = vec![agent(3, IVec2::new(1, 1), Some(IVec2::new(2, 0))), agent(8, IVec2::new(0, 1), None)];
    assert!(solver.needs_replan(&drifted, 1));
    // Agent count changed.
    assert!(solver.needs_replan(&agents[..1], 1));

    // Advancing the plan.
    let step = solver.advance(5, &agents);
    assert_eq!(step, vec![(3, Some((IVec2::new(0, 0), IVec2::new(1, 0)))), (8, Some((IVec2::new(0, 1), IVec2::new(0, 1))))]);
    let moved = vec![agent(3, IVec2::new(1, 0), Some(IVec2::new(2, 0))), agent(8, IVec2::new(0, 1), None)];
    assert!(!solver.needs_replan(&moved, 1));
    let step = solver.advance(5, &moved);
    assert_eq!(step[0], (3, Some((IVec2::new(1, 0), IVec2::new(2, 0)))));
    // One configuration left: exhausted, everyone waits.
    let arrived = vec![agent(3, IVec2::new(2, 0), Some(IVec2::new(2, 0))), agent(8, IVec2::new(0, 1), None)];
    assert!(solver.needs_replan(&arrived, 2));
    assert_eq!(solver.advance(5, &arrived), vec![(3, None), (8, None)]);
    // No agents: nothing happens.
    assert!(solver.advance(5, &[]).is_empty());

    // Empty agent list drops the plan.
    assert!(solver.begin_replan(5, 3, &[]).is_none());
    solver.reset();
    assert!(solver.needs_replan(&agents, 0));
}

#[test]
fn lacam3_lifelong_empty_agents() {
    let mut solver = LaCAM3LifelongSolver::new();
    let plans = solver.advance(5, &[]);
    assert!(plans.is_empty());
    assert_eq!(solver.name(), "lacam3_lifelong");
}
