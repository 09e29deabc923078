use std::collections::VecDeque;

use mafis::cli::{Command, CompletionShell, ConfigCommand};
use mafis::graphics::{GraphicsConfig, TaskPalette, TaskStateMode};
use mafis::grid::IVec2;
use mafis::lifelong::{LifelongConfig, THROUGHPUT_WINDOW_SIZE};
use mafis::metrics::{
    compute_critical_time, compute_throughput_recovery, deficit_recovery, fault_ticks,
    first_fault_index, propagation_events,
};
use mafis::schedulers::{ActiveScheduler, SchedulerKind};
use mafis::task::{TaskLeg, TASK_STATES};

#[test]
fn throughput_counts_completions_per_tick() {
    let mut config = LifelongConfig::default();
    for t in [1, 1, 2, 4, 4, 4] {
        config.record_completion(t);
    }
    assert_eq!(config.tasks_completed(), 6);
    assert_eq!(config.throughput(1), 2);
    assert_eq!(config.throughput(2), 1);
    assert_eq!(config.throughput(3), 0);
    assert_eq!(config.throughput(4), 3);
}

#[test]
fn completion_window_keeps_newest_ticks() {
    let mut config = LifelongConfig::default();
    for t in 0..(THROUGHPUT_WINDOW_SIZE as u64 + 5) {
        config.record_completion(t);
    }
    let window = config.completion_ticks();
    assert_eq!(window.len(), THROUGHPUT_WINDOW_SIZE);
    assert_eq!(*window.front().unwrap(), 5);
    assert_eq!(config.throughput(0), 0);
    assert_eq!(config.throughput(THROUGHPUT_WINDOW_SIZE as u64 + 4), 1);
}

#[test]
fn restore_rebuilds_cache_from_last_run() {
    let mut config = LifelongConfig::default();
    config.restore_from_snapshot(17, VecDeque::from(vec![3, 3, 5, 5, 5]));
    assert_eq!(config.tasks_completed(), 17);
    assert!(config.needs_replan());
    assert_eq!(config.throughput(5), 3);
    assert_eq!(config.throughput(3), 2);
    config.record_completion(5);
    assert_eq!(config.throughput(5), 4);

    config.restore_from_snapshot(0, VecDeque::new());
    assert_eq!(config.throughput(0), 0);
    assert!(config.completion_ticks().is_empty());
}

#[test]
fn set_completion_ticks_rebuilds_cache() {
    let mut config = LifelongConfig::default();
    config.record_completion(10);
    config.set_completion_ticks(VecDeque::from(vec![7, 7]));
    assert_eq!(config.throughput(7), 2);
    // tick 10 is no longer in the window, so nothing completed there
    assert_eq!(config.throughput(10), 0);
    config.record_completion(7);
    assert_eq!(config.throughput(7), 3);
    config.set_completion_ticks(VecDeque::new());
    assert_eq!(config.throughput(7), 0);
}

#[test]
fn restore_reproduces_another_runs_throughput() {
    let mut source = LifelongConfig::default();
    for t in [2, 3, 3, 8, 8, 8] {
        source.record_completion(t);
    }
    let mut copy = LifelongConfig::default();
    copy.record_completion(50);
    copy.restore_from_snapshot(source.tasks_completed(), source.completion_ticks().clone());
    assert_eq!(copy.tasks_completed(), source.tasks_completed());
    assert_eq!(copy.completion_ticks(), source.completion_ticks());
    assert!(copy.needs_replan());
    for t in 0..60 {
        assert_eq!(copy.throughput(t), source.throughput(t));
    }
}

#[test]
fn lifelong_accessors() {
    let mut config = LifelongConfig::default();
    assert!(!config.needs_replan());
    assert!(config.enabled());
    config.set_enabled(false);
    config.set_needs_replan(true);
    config.set_tasks_completed(9);
    assert!(!config.enabled());
    assert!(config.needs_replan());
    assert_eq!(config.tasks_completed(), 9);
    config.reset();
    assert_eq!(config.tasks_completed(), 0);
    assert!(!config.needs_replan());
    assert!(!config.enabled());
}

#[test]
fn throughput_recovery_cases() {
    let bl = [2u64, 2, 2, 2, 2, 2];
    assert_eq!(compute_throughput_recovery(&bl, &bl, None), Some(0));
    assert_eq!(compute_throughput_recovery(&bl, &bl, Some(9)), Some(0));
    let f = [2u64, 0, 0, 1, 2, 0];
    assert_eq!(compute_throughput_recovery(&bl, &f, Some(1)), Some(3));
    let never = [2u64, 0, 0, 1, 1, 1];
    assert_eq!(compute_throughput_recovery(&bl, &never, Some(1)), None);
    // the fault tick itself does not count as recovery
    assert_eq!(compute_throughput_recovery(&bl, &bl, Some(2)), Some(1));
}

#[test]
fn critical_time_edges() {
    let bl = [4u64, 4, 4];
    let f = [1u64, 2, 3];
    assert_eq!(compute_critical_time(&bl, &f, Some(0)), Some((0, 1)));
    assert_eq!(compute_critical_time(&bl, &f, Some(4)), Some((0, 1)));
    // 1*2 < 4 is critical, 2*2 < 4 is not
    assert_eq!(compute_critical_time(&bl, &f, Some(1)), Some((1, 3)));
    assert_eq!(compute_critical_time(&bl, &f[..2], Some(1)), Some((1, 2)));
}

#[test]
fn scheduler_selection() {
    assert_eq!(*ActiveScheduler::from_name("balanced").scheduler(), SchedulerKind::Balanced);
    assert_eq!(*ActiveScheduler::from_name("roundtrip").scheduler(), SchedulerKind::RoundTrip);
    assert_eq!(*ActiveScheduler::from_name("Closest").scheduler(), SchedulerKind::Random);
    assert_eq!(ActiveScheduler::default().name(), "random");
}

#[test]
fn palette_slots() {
    let zero = IVec2::new(0, 0);
    assert_eq!(TaskLeg::Free.palette_index(), 0);
    assert_eq!(TaskLeg::Loading(zero).palette_index(), 2);
    assert_eq!(TaskLeg::Unloading { from: zero, to: zero }.palette_index(), 6);
    assert_eq!(TaskLeg::Charging.palette_index(), 7);
}

#[test]
fn every_leg_has_its_own_palette_slot() {
    let z = IVec2::new(0, 0);
    let legs = [
        TaskLeg::Free,
        TaskLeg::TravelEmpty(z),
        TaskLeg::Loading(z),
        TaskLeg::TravelToQueue { from: z, to: z, line_index: 0 },
        TaskLeg::Queuing { from: z, to: z, line_index: 0 },
        TaskLeg::TravelLoaded { from: z, to: z },
        TaskLeg::Unloading { from: z, to: z },
        TaskLeg::Charging,
    ];
    assert_eq!(legs.len(), TASK_STATES);
    let mut seen = [false; TASK_STATES];
    for leg in legs {
        let i = leg.palette_index();
        assert!(i < TASK_STATES);
        assert!(!seen[i], "slot {i} taken twice");
        seen[i] = true;
    }
    assert!(seen.iter().all(|s| *s));
}

#[test]
fn graphics_choices() {
    let mut g = GraphicsConfig::default();
    assert!(!g.shadows && g.msaa && !g.colorblind);
    assert_eq!(g.task_state_mode, TaskStateMode::Simple);
    assert_eq!(g.task_palette(), TaskPalette::Simple);
    assert!(!g.is_dwell_slot(2));
    assert_eq!(g.msaa_samples(), 4);
    g.task_state_mode = TaskStateMode::Detailed;
    g.colorblind = true;
    g.msaa = false;
    assert_eq!(g.task_palette(), TaskPalette::DetailedColorblind);
    assert!(g.is_dwell_slot(2) && g.is_dwell_slot(4) && g.is_dwell_slot(6));
    assert!(!g.is_dwell_slot(3));
    assert_eq!(g.msaa_samples(), 1);
}

#[test]
fn only_completions_run_outside_the_project() {
    assert!(!Command::Completions { shell: CompletionShell::Zsh }.needs_project_root());
    assert!(Command::Check.needs_project_root());
    assert!(Command::Config { action: ConfigCommand::Show }.needs_project_root());
}

#[test]
fn fault_timeline() {
    let events = [0usize, 0, 3, 0, 1];
    assert_eq!(first_fault_index(&events), Some(2));
    assert_eq!(fault_ticks(&events), vec![3, 5]);
    assert_eq!(first_fault_index(&[0, 0]), None);
    assert!(fault_ticks(&[0, 0]).is_empty());

    // alive after each tick; the population at risk is the previous tick's
    let alive = [20usize, 20, 17, 17, 16];
    let dead = [0usize, 0, 3, 3, 4];
    assert_eq!(propagation_events(&events, &alive, &dead), vec![(3, 20), (1, 17)]);
    // faults on the first tick: the whole initial fleet
    assert_eq!(propagation_events(&[5, 0], &[15, 15], &[5, 5]), vec![(5, 20)]);

    assert_eq!(deficit_recovery(Some(40), Some(10)), Some(30));
    assert_eq!(deficit_recovery(None, Some(10)), None);
    assert_eq!(deficit_recovery(Some(5), Some(10)), Some(0));
    assert_eq!(deficit_recovery(None, None), Some(0));
}
