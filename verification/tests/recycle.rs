use mafis::grid::{CellSet, IVec2};
use mafis::recycle::{recycle_goals_core, TaskAgentSnapshot};
use mafis::schedulers::{
    BalancedScheduler, ClosestFirstScheduler, RandomScheduler, RoundTripScheduler, TaskScheduler,
};
use mafis::task::{TaskLeg, ZoneMap};
use rand::SeedableRng;
use rand_chacha::ChaCha8Rng;

fn zones() -> ZoneMap {
    let mut pickup_cells = Vec::new();
    let mut delivery_cells = Vec::new();
    let mut corridor_cells = Vec::new();
    for x in 0..8 {
        for y in 0..8 {
            let pos = IVec2::new(x, y);
            if y < 2 {
                delivery_cells.push(pos);
            } else if y == 3 || y == 5 {
                pickup_cells.push(pos);
            } else {
                corridor_cells.push(pos);
            }
        }
    }
    ZoneMap { pickup_cells, delivery_cells, corridor_cells, recharging_cells: Vec::new() }
}

fn agent(pos: IVec2, goal: IVec2, task_leg: TaskLeg, alive: bool) -> TaskAgentSnapshot {
    TaskAgentSnapshot { pos, goal, task_leg, alive }
}

#[test]
fn recycle_moves_each_agent_at_goal_by_one_leg() {
    let z = zones();
    let mut rng = ChaCha8Rng::seed_from_u64(7);
    let p = IVec2::new;
    let agents = vec![
        agent(p(4, 4), p(4, 4), TaskLeg::Free, true),
        agent(p(4, 3), p(4, 3), TaskLeg::TravelEmpty(p(4, 3)), true),
        agent(p(1, 0), p(1, 0), TaskLeg::TravelLoaded { from: p(2, 3), to: p(1, 0) }, true),
        agent(p(6, 6), p(6, 6), TaskLeg::Free, false),
        agent(p(0, 0), p(2, 3), TaskLeg::TravelEmpty(p(2, 3)), true),
        agent(p(7, 7), p(7, 7), TaskLeg::Free, true),
        agent(p(3, 0), p(3, 0), TaskLeg::Queuing { from: p(1, 3), to: p(3, 0), line_index: 0 }, true),
    ];
    let r = recycle_goals_core(&agents, &ClosestFirstScheduler, &z, &mut rng, 42);

    assert_eq!(r.updates.len(), agents.len());
    // Free at goal: nearest free pickup, first in list order on ties.
    assert_eq!(r.updates[0].task_leg, TaskLeg::TravelEmpty(p(4, 3)));
    assert_eq!(r.updates[0].goal, p(4, 3));
    assert!(r.updates[0].path_cleared);
    // Reached the pickup: loading.
    assert_eq!(r.updates[1].task_leg, TaskLeg::Loading(p(4, 3)));
    assert!(!r.updates[1].path_cleared);
    // Delivered: free again, one completion at this tick.
    assert_eq!(r.updates[2].task_leg, TaskLeg::Free);
    assert_eq!(r.updates[2].goal, p(1, 0));
    // Dead, travelling and queuing agents are left alone.
    assert_eq!(r.updates[3].task_leg, TaskLeg::Free);
    assert!(!r.updates[3].path_cleared);
    assert_eq!(r.updates[4].task_leg, TaskLeg::TravelEmpty(p(2, 3)));
    assert_eq!(r.updates[6].task_leg, TaskLeg::Queuing { from: p(1, 3), to: p(3, 0), line_index: 0 });
    // The second free agent gets its own nearest pickup.
    assert_eq!(r.updates[5].goal, p(7, 5));
    assert_eq!(r.completion_ticks, vec![42]);
    assert_eq!(r.just_loaded, vec![1]);
    assert!(r.needs_replan);
}

#[test]
fn recycle_never_hands_out_a_claimed_pickup() {
    let z = zones();
    let mut rng = ChaCha8Rng::seed_from_u64(3);
    let mut agents = Vec::new();
    // Many free agents, some pickups already held by agents on their way.
    for k in 0..6 {
        agents.push(agent(IVec2::new(k, 7), IVec2::new(k, 3), TaskLeg::TravelEmpty(IVec2::new(k, 3)), true));
    }
    for k in 0..8 {
        agents.push(agent(IVec2::new(k, 6), IVec2::new(k, 6), TaskLeg::Free, true));
    }
    let r = recycle_goals_core(&agents, &RandomScheduler, &z, &mut rng, 1);
    let mut seen = Vec::new();
    for (i, u) in r.updates.iter().enumerate() {
        if u.path_cleared {
            assert!(z.pickup_cells.contains(&u.goal));
            assert!(!(u.goal.x < 6 && u.goal.y == 3), "held pickup handed out to {i}");
            assert!(!seen.contains(&u.goal), "pickup handed out twice");
            seen.push(u.goal);
        }
    }
    assert_eq!(seen.len(), 8);
}

#[test]
fn recycle_leaves_free_agent_waiting_when_all_pickups_claimed() {
    let z = ZoneMap {
        pickup_cells: vec![IVec2::new(1, 1)],
        delivery_cells: vec![IVec2::new(3, 3)],
        corridor_cells: Vec::new(),
        recharging_cells: Vec::new(),
    };
    let mut rng = ChaCha8Rng::seed_from_u64(1);
    let agents = vec![
        agent(IVec2::new(0, 0), IVec2::new(1, 1), TaskLeg::TravelEmpty(IVec2::new(1, 1)), true),
        agent(IVec2::new(2, 2), IVec2::new(2, 2), TaskLeg::Free, true),
    ];
    let r = recycle_goals_core(&agents, &RandomScheduler, &z, &mut rng, 5);
    assert_eq!(r.updates[1].task_leg, TaskLeg::Free);
    assert_eq!(r.updates[1].goal, IVec2::new(2, 2));
    assert!(!r.updates[1].path_cleared);
    assert!(!r.needs_replan);
    assert!(r.completion_ticks.is_empty());
}

#[test]
fn random_scheduler_finds_the_only_free_cell() {
    let z = zones();
    let mut occupied = CellSet::new();
    for c in &z.pickup_cells {
        if *c != IVec2::new(6, 5) {
            occupied.insert(*c);
        }
    }
    for seed in 0..20 {
        let mut rng = ChaCha8Rng::seed_from_u64(seed);
        let r = RandomScheduler.assign_pickup(&z, IVec2::new(0, 0), &occupied, &mut rng);
        assert_eq!(r, Some(IVec2::new(6, 5)));
    }
    occupied.insert(IVec2::new(6, 5));
    let mut rng = ChaCha8Rng::seed_from_u64(0);
    assert_eq!(RandomScheduler.assign_pickup(&z, IVec2::new(0, 0), &occupied, &mut rng), None);
}

#[test]
fn balanced_scheduler_picks_farthest_from_claimed_centroid() {
    let z = zones();
    let mut occupied = CellSet::new();
    occupied.insert(IVec2::new(4, 3));
    let mut rng = ChaCha8Rng::seed_from_u64(42);
    let r = BalancedScheduler.assign_pickup(&z, IVec2::new(4, 4), &occupied, &mut rng);
    assert_eq!(r, Some(IVec2::new(0, 5)));
}

#[test]
fn schedulers_skip_own_cell() {
    let z = ZoneMap {
        pickup_cells: vec![IVec2::new(2, 2), IVec2::new(5, 5)],
        delivery_cells: vec![IVec2::new(2, 2)],
        corridor_cells: Vec::new(),
        recharging_cells: Vec::new(),
    };
    let occupied = CellSet::new();
    let mut rng = ChaCha8Rng::seed_from_u64(0);
    assert_eq!(ClosestFirstScheduler.assign_pickup(&z, IVec2::new(2, 2), &occupied, &mut rng), Some(IVec2::new(5, 5)));
    assert_eq!(ClosestFirstScheduler.assign_delivery(&z, IVec2::new(2, 2), &occupied, &mut rng), None);
}

#[test]
fn recycle_follows_the_given_scheduler_in_agent_order() {
    let z = ZoneMap {
        pickup_cells: vec![IVec2::new(0, 0), IVec2::new(3, 0)],
        delivery_cells: vec![IVec2::new(5, 5)],
        corridor_cells: Vec::new(),
        recharging_cells: Vec::new(),
    };
    let agents = vec![
        agent(IVec2::new(1, 0), IVec2::new(1, 0), TaskLeg::Free, true),
        agent(IVec2::new(1, 1), IVec2::new(1, 1), TaskLeg::Free, true),
    ];
    let mut rng = ChaCha8Rng::seed_from_u64(42);
    let r = recycle_goals_core(&agents, &ClosestFirstScheduler, &z, &mut rng, 7);
    assert_eq!(r.updates[0].task_leg, TaskLeg::TravelEmpty(IVec2::new(0, 0)));
    assert_eq!(r.updates[0].goal, IVec2::new(0, 0));
    assert!(r.updates[0].path_cleared);
    assert_eq!(r.updates[1].task_leg, TaskLeg::TravelEmpty(IVec2::new(3, 0)));
    assert_eq!(r.updates[1].goal, IVec2::new(3, 0));
    assert!(r.updates[1].path_cleared);
    assert!(r.completion_ticks.is_empty());
    assert!(r.needs_replan);
    assert!(r.just_loaded.is_empty());
    // Nearest-first draws nothing from the generator.
    assert_eq!(rng, ChaCha8Rng::seed_from_u64(42));
}

#[test]
fn recycle_without_free_agents_leaves_generator_alone() {
    let z = zones();
    let agents = vec![
        agent(IVec2::new(0, 0), IVec2::new(2, 3), TaskLeg::TravelEmpty(IVec2::new(2, 3)), true),
        agent(IVec2::new(6, 6), IVec2::new(6, 6), TaskLeg::Free, false),
    ];
    let mut rng = ChaCha8Rng::seed_from_u64(11);
    let r = recycle_goals_core(&agents, &RandomScheduler, &z, &mut rng, 3);
    assert!(!r.needs_replan);
    assert_eq!(rng, ChaCha8Rng::seed_from_u64(11));
}

#[test]
fn deterministic_schedulers_leave_generator_alone() {
    let z = zones();
    let mut occupied = CellSet::new();
    occupied.insert(IVec2::new(4, 3));
    let pos = IVec2::new(4, 4);
    let fresh = ChaCha8Rng::seed_from_u64(5);

    let mut rng = fresh.clone();
    assert!(ClosestFirstScheduler.assign_pickup(&z, pos, &occupied, &mut rng).is_some());
    assert!(ClosestFirstScheduler.assign_delivery(&z, pos, &occupied, &mut rng).is_some());
    assert!(RoundTripScheduler.assign_pickup(&z, pos, &occupied, &mut rng).is_some());
    assert!(RoundTripScheduler.assign_delivery(&z, pos, &occupied, &mut rng).is_some());
    assert!(BalancedScheduler.assign_pickup(&z, pos, &occupied, &mut rng).is_some());
    assert!(BalancedScheduler.assign_delivery(&z, pos, &occupied, &mut rng).is_some());
    assert_eq!(rng, fresh);

    // With nothing claimed, balanced choice and random choice draw from it.
    let empty = CellSet::new();
    let mut rng = fresh.clone();
    assert!(RandomScheduler.assign_pickup(&z, pos, &empty, &mut rng).is_some());
    assert_ne!(rng, fresh);
}
