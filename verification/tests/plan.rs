use liftplan::engine::resolve;
use liftplan::plates::default_inventory;
use liftplan::render::{
    format_loadout, plan_from_config, render_supports, weight_cell, DayName, RenderedSupports,
};
use liftplan::schedule::{
    advance_config, init_config, max_to_sets, reps_for_week, Support, Supports,
};
use liftplan::text::{tenths_to_string, u64_to_string};

#[test]
fn decimal_rendering() {
    assert_eq!(u64_to_string(0).as_str(), "0");
    assert_eq!(u64_to_string(315).as_str(), "315");
    assert_eq!(tenths_to_string(1150).as_str(), "115");
    assert_eq!(tenths_to_string(25).as_str(), "2.5");
    assert_eq!(tenths_to_string(0).as_str(), "0");
}

#[test]
fn loadout_formatting() {
    assert_eq!(format_loadout(&vec![]).as_str(), "()");
    assert_eq!(format_loadout(&vec![450]).as_str(), "(45)");
    assert_eq!(format_loadout(&vec![450, 250, 25]).as_str(), "(45 25 2.5)");
}

#[test]
fn weight_cell_pads_and_looks_up() {
    let map = resolve(&default_inventory(), 450);
    let cell = weight_cell(1350, &map);
    assert_eq!(cell.value.as_str(), "135");
    assert_eq!(cell.side.as_str(), "(45)");
    let small = weight_cell(50, &map);
    assert_eq!(small.value.as_str(), "  5");
    assert_eq!(small.side.as_str(), "unknown");
}

#[test]
fn max_to_sets_exact_values() {
    // A 315.0 max, not yet scaled: base 90% = 283.5; week one is 65%,
    // 75%, 85% of that, rounded to a unit and then up to a fifth.
    let sets = max_to_sets(3150, false);
    assert_eq!(sets[0], [185, 215, 245]);
    assert_eq!(sets[1], [200, 230, 255]);
    assert_eq!(sets[2], [215, 245, 270]);
    assert_eq!(sets[3], [145, 145, 145]);
}

#[test]
fn max_to_sets_ninety_skips_scaling() {
    let scaled = max_to_sets(2835, true);
    let unscaled = max_to_sets(3150, false);
    assert_eq!(scaled, unscaled);
}

#[test]
fn reps_per_week() {
    assert_eq!(reps_for_week(0), [5, 5, 5]);
    assert_eq!(reps_for_week(1), [3, 3, 3]);
    assert_eq!(reps_for_week(2), [5, 3, 1]);
    assert_eq!(reps_for_week(3), [5, 5, 5]);
}

#[test]
fn default_supports_cover_all_weeks() {
    let s = Supports::default();
    assert_eq!(s.included_weeks, vec![1, 2, 3, 4]);
    assert!(s.bench_press.is_empty());
    assert!(s.dead_lift.is_empty());
    assert!(s.overhead_press.is_empty());
    assert!(s.squat.is_empty());
}

#[test]
fn placeholder_support() {
    let p = Support::placeholder();
    assert_eq!(p.name.as_str(), "Placeholder");
    assert!(p.reps.is_none());
}

#[test]
fn supports_filtered_by_week() {
    let mut s = Supports::default();
    s.included_weeks = vec![1, 2];
    s.dead_lift = vec![Support { name: "Rows".to_string(), reps: Some(10) }];
    assert_eq!(s.dead_lift_for(1).len(), 1);
    assert_eq!(s.dead_lift_for(3).len(), 0);
    assert_eq!(s.squat_for(1).len(), 0);
}

#[test]
fn rendered_supports_slots() {
    let list = vec![
        Support { name: "Rows".to_string(), reps: Some(10) },
        Support { name: "Dips".to_string(), reps: None },
    ];
    let arr = render_supports(&list);
    assert_eq!(arr[0].name.as_str(), "Rows");
    assert_eq!(arr[0].reps.as_str(), "10");
    assert_eq!(arr[1].name.as_str(), "Dips");
    assert_eq!(arr[1].reps.as_str(), "");
    for slot in arr.iter().skip(2) {
        assert_eq!(slot.name.as_str(), "");
        assert_eq!(slot.reps.as_str(), "");
    }
}

#[test]
fn rendered_supports_from_supports() {
    let mut s = Supports::default();
    s.bench_press = vec![Support { name: "Dips".to_string(), reps: Some(8) }];
    let r = RenderedSupports::from_supports(&s);
    assert_eq!(r.included_weeks, vec![1, 2, 3, 4]);
    assert_eq!(r.bench[0].name.as_str(), "Dips");
    assert_eq!(r.dead[0].name.as_str(), "");
}

#[test]
fn day_labels() {
    assert_eq!(DayName::Bench.label().as_str(), "Bench");
    assert_eq!(DayName::OHP.label().as_str(), "OHP");
    assert_eq!(DayName::Squat.label().as_str(), "Squat");
    assert_eq!(DayName::Deads.label().as_str(), "Deads");
}

#[test]
fn init_config_builds_all_lifts() {
    let cfg = init_config(3150, 4050, 2250, 1350, false);
    assert_eq!(cfg.squat[0][0], 1850);
    assert!(cfg.supports.is_some());
    let s = cfg.supports.unwrap();
    assert_eq!(s.included_weeks, vec![1, 2, 3, 4]);
    assert!(s.squat.is_empty());
}

#[test]
fn advance_config_bumps_targets() {
    let cfg = init_config(3150, 4050, 2250, 1350, false);
    let squat_before = cfg.squat[0][0];
    let bench_before = cfg.bench_press[0][0];
    let next = advance_config(cfg, false);
    assert_eq!(next.squat[0][0], squat_before + 100);
    assert_eq!(next.bench_press[0][0], bench_before + 50);
    assert!(next.supports.as_ref().unwrap().squat.is_empty());
}

#[test]
fn advance_config_clears_supports() {
    let mut cfg = init_config(3150, 4050, 2250, 1350, false);
    if let Some(s) = cfg.supports.as_mut() {
        s.dead_lift = vec![Support { name: "Rows".to_string(), reps: Some(10) }];
    }
    let next = advance_config(cfg, true);
    let s = next.supports.unwrap();
    assert_eq!(s.dead_lift.len(), 1);
    assert_eq!(s.dead_lift[0].name.as_str(), "Placeholder");
    assert_eq!(s.squat.len(), 1);
    assert_eq!(s.included_weeks, vec![1, 2, 3, 4]);
}

#[test]
fn plan_structure() {
    let cfg = init_config(3150, 4050, 2250, 1350, false);
    let map = resolve(&default_inventory(), 450);
    let plan = plan_from_config(&cfg, &map);
    assert_eq!(plan.weeks.len(), 4);
    assert_eq!(plan.weeks[0].name.as_str(), "First Week");
    assert_eq!(plan.weeks[1].name.as_str(), "Second Week");
    assert_eq!(plan.weeks[2].name.as_str(), "Max Week");
    assert_eq!(plan.weeks[3].name.as_str(), "De-load Week");
    let day = &plan.weeks[0].days[0];
    assert_eq!(day.name, DayName::Deads);
    assert_eq!(day.reps, [5, 5, 5]);
    assert_eq!(day.exercises.len(), 3);
    // Dead lift from a 405.0 max: 90% base 364.5, week one 65% = 236.925,
    // rounded to 237, snapped up to 240.
    assert_eq!(day.exercises[0].value.as_str(), "240");
}
