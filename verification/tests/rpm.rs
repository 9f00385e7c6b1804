use rbr2g29::gear_map::GearMap;
use rbr2g29::rpm::{TelemetrySample, RPM};

fn sample(car_index: i32, gear: i32, rpm: u32, race_time_ms: u32) -> TelemetrySample {
    TelemetrySample {
        car_index,
        gear,
        rpm,
        race_time_ms,
    }
}

fn loaded_map() -> GearMap {
    GearMap::load_from_bytes(b"gear2upshift 6500\ngear3upshift 6800\nrpmlimit 7200\n").unwrap()
}

#[test]
fn test_initial_tracker() {
    let t = RPM::new();
    assert_eq!(t.current, 0);
    assert_eq!(t.car, 0);
    assert_eq!(t.gear, 0);
    assert_eq!(t.max, 0);
    assert_eq!(t.upshift, 0);
    assert_eq!(t.previous_time, 0);
    assert_eq!(t.gears, GearMap::default());
}

#[test]
fn test_car_change_reloads_exactly_once() {
    let mut t = RPM::new();
    let s1 = sample(1, 2, 3000, 10_000);
    // the car index differs from the tracked one: one reload is due
    assert!(t.needs_reload(&s1));
    t.update(&s1, Some(loaded_map()));
    assert_eq!(t.max, 7200);
    assert_eq!(t.car, 1);
    // same car, no restart edge: no further reload until the next edge
    let s2 = sample(1, 2, 3100, 10_020);
    assert!(!t.needs_reload(&s2));
    t.update(&s2, None);
    assert!(!t.needs_reload(&sample(1, 3, 3200, 10_040)));
    // another car change is a fresh edge
    assert!(t.needs_reload(&sample(4, 3, 3200, 10_060)));
}

#[test]
fn test_restart_edge_triggers_once() {
    let mut t = RPM::new();
    t.update(&sample(1, 2, 3000, 5_000), Some(loaded_map()));
    // race time falls from positive to zero: a stage restart
    let restart = sample(1, 2, 900, 0);
    assert!(t.needs_reload(&restart));
    t.update(&restart, Some(loaded_map()));
    // the feed keeps reporting zero before the run starts: no retrigger
    let idle = sample(1, 2, 900, 0);
    assert!(!t.needs_reload(&idle));
    t.update(&idle, None);
    assert!(!t.needs_reload(&idle));
    // the run starts, then another restart is a fresh edge
    t.update(&sample(1, 2, 2000, 1_500), None);
    assert!(t.needs_reload(&sample(1, 2, 900, 0)));
}

#[test]
fn test_failed_reload_keeps_old_map() {
    let mut t = RPM::new();
    t.update(&sample(1, 2, 3000, 1_000), Some(loaded_map()));
    assert_eq!(t.max, 7200);
    // car changes but the reload attempt failed: stale thresholds stay
    t.update(&sample(2, 2, 3000, 1_020), None);
    assert_eq!(t.car, 2);
    assert_eq!(t.gears, loaded_map());
    assert_eq!(t.max, 7200);
}

#[test]
fn test_gear_change_recomputes_threshold() {
    let mut t = RPM::new();
    t.update(&sample(1, 2, 3000, 1_000), Some(loaded_map()));
    assert_eq!(t.upshift, 6500);
    // same gear: the threshold is untouched
    t.update(&sample(1, 2, 3500, 1_020), None);
    assert_eq!(t.upshift, 6500);
    // gear change: recomputed from the current map
    t.update(&sample(1, 3, 3600, 1_040), None);
    assert_eq!(t.upshift, 6800);
    // a gear without a known shift point reads as 0
    t.update(&sample(1, 5, 3700, 1_060), None);
    assert_eq!(t.upshift, 0);
}

#[test]
fn test_rpm_and_time_always_tracked() {
    let mut t = RPM::new();
    t.update(&sample(0, 1, 4321, 777), None);
    assert_eq!(t.current, 4321);
    assert_eq!(t.previous_time, 777);
    assert_eq!(t.gear, 1);
}
