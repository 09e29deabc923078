use mafis::grid::{CellSet, IVec2};
use mafis::lifelong::LifelongConfig;
use mafis::schedulers::{
    ActiveScheduler, BalancedScheduler, ClosestFirstScheduler, RandomScheduler,
    RoundTripScheduler, TaskScheduler,
};
use mafis::task::{TaskLeg, ZoneMap};
use rand::SeedableRng;
use rand_chacha::ChaCha8Rng;

fn test_rng() -> ChaCha8Rng {
    ChaCha8Rng::seed_from_u64(42)
}

fn test_zones() -> ZoneMap {
    let mut pickup_cells = Vec::new();
    let mut delivery_cells = Vec::new();
    let mut corridor_cells = Vec::new();

    // Small 8x8 zone map: bottom 2 rows = delivery, rest = pickup + corridor
    for x in 0..8 {
        for y in 0..8 {
            let pos = IVec2::new(x, y);
            if y < 2 {
                delivery_cells.push(pos);
            } else if y == 3 || y == 5 {
                pickup_cells.push(pos);
            } else {
                corridor_cells.push(pos);
            }
        }
    }

    ZoneMap { pickup_cells, delivery_cells, corridor_cells, recharging_cells: Vec::new() }
}

#[test]
fn random_scheduler_assigns_pickup() {
    let zones = test_zones();
    let scheduler = RandomScheduler;
    let mut rng = test_rng();
    let occupied = CellSet::new();
    let pos = IVec2::new(4, 4);

    let pickup = scheduler.assign_pickup(&zones, pos, &occupied, &mut rng);
    assert!(pickup.is_some());
    let p = pickup.unwrap();
    assert!(zones.pickup_cells.contains(&p));
}

#[test]
fn random_scheduler_assigns_delivery() {
    let zones = test_zones();
    let scheduler = RandomScheduler;
    let mut rng = test_rng();
    let occupied = CellSet::new();
    let pos = IVec2::new(4, 4);

    let delivery = scheduler.assign_delivery(&zones, pos, &occupied, &mut rng);
    assert!(delivery.is_some());
    let d = delivery.unwrap();
    assert!(zones.delivery_cells.contains(&d));
}

#[test]
fn closest_scheduler_picks_nearest_pickup() {
    let zones = test_zones();
    let scheduler = ClosestFirstScheduler;
    let mut rng = test_rng();
    let occupied = CellSet::new();
    let pos = IVec2::new(4, 4);

    let pickup = scheduler.assign_pickup(&zones, pos, &occupied, &mut rng);
    assert!(pickup.is_some());
    let p = pickup.unwrap();
    // Should be closest pickup cell to (4,4) — which is y=3 or y=5
    let dist = (p.x - pos.x).abs() + (p.y - pos.y).abs();
    assert!(dist <= 2, "closest pickup should be nearby, got dist={dist}");
}

#[test]
fn closest_scheduler_picks_nearest_delivery() {
    let zones = test_zones();
    let scheduler = ClosestFirstScheduler;
    let mut rng = test_rng();
    let occupied = CellSet::new();
    let pos = IVec2::new(4, 2);

    let delivery = scheduler.assign_delivery(&zones, pos, &occupied, &mut rng);
    assert!(delivery.is_some());
    let d = delivery.unwrap();
    let dist = (d.x - pos.x).abs() + (d.y - pos.y).abs();
    assert!(dist <= 2, "closest delivery should be nearby, got dist={dist}");
}

#[test]
fn task_leg_default_is_idle() {
    let leg = TaskLeg::default();
    assert_eq!(leg, TaskLeg::Free);
}

#[test]
fn task_leg_labels() {
    let zero = IVec2::new(0, 0);
    let one = IVec2::new(1, 1);
    assert_eq!(TaskLeg::Free.label(), "free");
    assert_eq!(TaskLeg::TravelEmpty(zero).label(), "travel_empty");
    assert_eq!(TaskLeg::Loading(zero).label(), "loading");
    assert_eq!(TaskLeg::TravelToQueue { from: zero, to: one, line_index: 0 }.label(), "travel_to_queue");
    assert_eq!(TaskLeg::Queuing { from: zero, to: one, line_index: 0 }.label(), "queuing");
    assert_eq!(TaskLeg::TravelLoaded { from: zero, to: one }.label(), "travel_loaded");
    assert_eq!(TaskLeg::Unloading { from: zero, to: one }.label(), "unloading");
    assert_eq!(TaskLeg::Charging.label(), "charging");
}

#[test]
fn lifelong_config_throughput_instantaneous() {
    let mut config = LifelongConfig::default();

    // No completions → 0 at any tick
    assert_eq!(config.throughput(5) as f64, 0.0);

    // Single completion at tick 10 → 1 at tick 10, 0 elsewhere
    config.record_completion(10);
    assert_eq!(config.throughput(10) as f64, 1.0);
    assert_eq!(config.throughput(9) as f64, 0.0);
    assert_eq!(config.throughput(11) as f64, 0.0);

    // Two completions at tick 10 → 2 at tick 10
    config.record_completion(10);
    assert_eq!(config.throughput(10) as f64, 2.0);
    assert_eq!(config.throughput(11) as f64, 0.0);

    // One completion at tick 12 → 1 at tick 12, still 2 at tick 10
    config.record_completion(12);
    assert_eq!(config.throughput(12) as f64, 1.0);
    assert_eq!(config.throughput(10) as f64, 2.0);
}

#[test]
fn lifelong_config_reset() {
    let mut config = LifelongConfig::default();
    config.set_enabled(true);
    config.record_completion(1);
    config.record_completion(2);
    config.set_needs_replan(true);

    config.reset();
    assert_eq!(config.tasks_completed(), 0);
    assert!(!config.needs_replan());
    assert_eq!(config.throughput(1) as f64, 0.0);
    assert_eq!(config.throughput(2) as f64, 0.0);
}

#[test]
fn balanced_scheduler_assigns_pickup() {
    let zones = test_zones();
    let scheduler = BalancedScheduler;
    let mut rng = test_rng();
    let occupied = CellSet::new();
    let pos = IVec2::new(4, 4);

    let pickup = scheduler.assign_pickup(&zones, pos, &occupied, &mut rng);
    assert!(pickup.is_some());
    assert!(zones.pickup_cells.contains(&pickup.unwrap()));
}

#[test]
fn balanced_scheduler_spreads_assignments() {
    let zones = test_zones();
    let scheduler = BalancedScheduler;
    let mut rng = test_rng();
    let pos = IVec2::new(4, 4);

    // Claim some cells as occupied
    let mut occupied = CellSet::new();
    occupied.insert(IVec2::new(4, 3)); // one pickup cell occupied

    let pickup = scheduler.assign_pickup(&zones, pos, &occupied, &mut rng);
    assert!(pickup.is_some());
    let p = pickup.unwrap();
    // Should not assign the occupied cell
    assert!(!occupied.contains(&p));
}

#[test]
fn roundtrip_scheduler_assigns_pickup() {
    let zones = test_zones();
    let scheduler = RoundTripScheduler;
    let mut rng = test_rng();
    let occupied = CellSet::new();
    let pos = IVec2::new(4, 4);

    let pickup = scheduler.assign_pickup(&zones, pos, &occupied, &mut rng);
    assert!(pickup.is_some());
    assert!(zones.pickup_cells.contains(&pickup.unwrap()));
}

#[test]
fn roundtrip_scheduler_prefers_close_to_delivery() {
    let zones = test_zones();
    let scheduler = RoundTripScheduler;
    let mut rng = test_rng();
    let occupied = CellSet::new();
    // Agent at top of map — should prefer pickup cells closer to delivery zone (bottom)
    let pos = IVec2::new(4, 7);

    let pickup = scheduler.assign_pickup(&zones, pos, &occupied, &mut rng);
    assert!(pickup.is_some());
    let p = pickup.unwrap();
    // y=3 pickup cells are closer to delivery (y<2) than y=5 cells
    assert_eq!(p.y, 3, "roundtrip should prefer pickup closer to delivery zone");
}

#[test]
fn active_scheduler_from_name() {
    let s = ActiveScheduler::from_name("random");
    assert_eq!(s.name(), "random");

    let s = ActiveScheduler::from_name("closest");
    assert_eq!(s.name(), "closest");

    let s = ActiveScheduler::from_name("balanced");
    assert_eq!(s.name(), "balanced");

    let s = ActiveScheduler::from_name("roundtrip");
    assert_eq!(s.name(), "roundtrip");

    // Unknown name falls back to random
    let s = ActiveScheduler::from_name("unknown");
    assert_eq!(s.name(), "random");
}
