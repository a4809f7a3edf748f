use liftplan::engine::{resolve, WeightMap};
use liftplan::keys::WeightKey;
use liftplan::plates::{default_inventory, Plates};
use liftplan::render::describe_loadout;

const BAR: u64 = 450;

fn inventory(pairs: &[(u32, u32)]) -> Plates {
    let mut inv = Plates::empty();
    for &(w, c) in pairs {
        inv.add_plates(w, c);
    }
    inv
}

fn loadout_at(map: &WeightMap, total_tenths: i64) -> Option<Vec<u32>> {
    map.lookup(&WeightKey::Finite(total_tenths)).cloned()
}

#[test]
fn scenario_two_45s_one_25() {
    // Two 45s and one 25 per side: side weights 0, 25, 45, 70, 90, 115
    // give totals 45, 95, 135, 185, 225, 275 with a 45 bar.
    let inv = inventory(&[(450, 2), (250, 1)]);
    let map = resolve(&inv, BAR);
    assert_eq!(map.entries.len(), 6);
    assert_eq!(loadout_at(&map, 450), Some(vec![]));
    assert_eq!(loadout_at(&map, 950), Some(vec![250]));
    assert_eq!(loadout_at(&map, 1350), Some(vec![450]));
    assert_eq!(loadout_at(&map, 1850), Some(vec![450, 250]));
    assert_eq!(loadout_at(&map, 2250), Some(vec![450, 450]));
    assert_eq!(loadout_at(&map, 2750), Some(vec![450, 450, 250]));
}

#[test]
fn bar_weight_always_present() {
    let inv = inventory(&[(450, 2), (250, 1)]);
    let map = resolve(&inv, BAR);
    assert_eq!(loadout_at(&map, BAR as i64), Some(vec![]));
}

#[test]
fn empty_inventory_yields_only_bar() {
    let inv = Plates::empty();
    let map = resolve(&inv, BAR);
    assert_eq!(map.entries.len(), 1);
    assert_eq!(loadout_at(&map, 450), Some(vec![]));
}

#[test]
fn minimal_loadout_prefers_fewer_plates() {
    // A side weight of 10 units is reachable as one 10 or two 5s: the
    // stored loadout must be the single plate.
    let inv = inventory(&[(100, 1), (50, 2)]);
    let map = resolve(&inv, BAR);
    assert_eq!(loadout_at(&map, 450 + 200), Some(vec![100]));
}

#[test]
fn duplicate_plate_tokens_aggregate() {
    let mut inv = Plates::empty();
    inv.add_plates(450, 1);
    inv.add_plates(450, 1);
    assert_eq!(inv.count_of(450), 2);
    assert_eq!(inv.count_of(250), 0);
}

#[test]
fn zero_weight_and_zero_count_ignored() {
    let mut inv = Plates::empty();
    inv.add_plates(0, 5);
    inv.add_plates(250, 0);
    assert_eq!(inv.count_of(0), 0);
    assert_eq!(inv.count_of(250), 0);
    let map = resolve(&inv, BAR);
    assert_eq!(map.entries.len(), 1);
}

#[test]
fn missing_target_lookup_is_none() {
    let inv = inventory(&[(450, 2)]);
    let map = resolve(&inv, BAR);
    assert!(map.lookup(&WeightKey::Finite(1000)).is_none());
}

#[test]
fn missing_target_renders_unknown() {
    let inv = inventory(&[(450, 2)]);
    let map = resolve(&inv, BAR);
    let text = describe_loadout(&map, &WeightKey::Finite(1000));
    assert_eq!(text.as_str(), "unknown");
}

#[test]
fn present_target_renders_loadout() {
    let inv = inventory(&[(450, 2), (250, 1)]);
    let map = resolve(&inv, BAR);
    let text = describe_loadout(&map, &WeightKey::Finite(1850));
    assert_eq!(text.as_str(), "(45 25)");
}

#[test]
fn sorted_entries_ascend_by_key() {
    let inv = inventory(&[(450, 2), (250, 1), (25, 2)]);
    let mut map = resolve(&inv, BAR);
    let before = map.entries.len();
    map.sort_entries();
    assert_eq!(map.entries.len(), before);
    for pair in map.entries.windows(2) {
        assert!(pair[0].key <= pair[1].key);
    }
    // Sorting keeps the content: the bar entry is still found.
    assert_eq!(loadout_at(&map, BAR as i64), Some(vec![]));
    assert_eq!(map.entries[0].key, WeightKey::Finite(BAR as i64));
}

#[test]
fn default_inventory_reaches_common_totals() {
    let inv = default_inventory();
    let map = resolve(&inv, BAR);
    // 135 = 45 + 2 x 45: one 45 per side.
    assert_eq!(loadout_at(&map, 1350), Some(vec![450]));
    // 225 = 45 + 2 x 90: two 45s per side.
    assert_eq!(loadout_at(&map, 2250), Some(vec![450, 450]));
    // 50 units of side weight takes two plates (45 + 5, or a pair of
    // 25s); which tie wins is insertion order, but never three plates.
    let side = loadout_at(&map, 450 + 1000).unwrap();
    assert_eq!(side.len(), 2);
    assert_eq!(side.iter().map(|&w| w as u64).sum::<u64>(), 500);
}
