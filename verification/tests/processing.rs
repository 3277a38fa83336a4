use miningsim::inventory::Inventory;
use miningsim::items::{ItemKind, OreKind};
use miningsim::processing::{self, OreCounts, SmeltTickEvent, SmelterState, SMELT_DURATION_MS};

#[test]
fn default_state_is_idle() {
    let s = SmelterState::default();
    assert_eq!(s.recipe, None);
    assert_eq!(s.queue, 0);
    assert!(s.output.is_empty());
    assert!(!processing::is_busy(&s));
}

#[test]
fn start_smelting_sets_recipe_and_timer() {
    let mut s = SmelterState::default();
    processing::start_smelting(&mut s, OreKind::Copper, 5);
    assert_eq!(s.recipe, Some(OreKind::Copper));
    assert_eq!(s.queue, 5);
    assert_eq!(s.time_left_ms, SMELT_DURATION_MS);
    assert!(processing::is_busy(&s));
}

#[test]
fn start_smelting_with_zero_count_is_noop() {
    let mut s = SmelterState::default();
    processing::start_smelting(&mut s, OreKind::Copper, 0);
    assert_eq!(s.recipe, None);
    assert_eq!(s.queue, 0);
}

#[test]
fn start_smelting_while_busy_is_noop() {
    let mut s = SmelterState::default();
    processing::start_smelting(&mut s, OreKind::Copper, 3);
    processing::start_smelting(&mut s, OreKind::Silver, 7);
    assert_eq!(s.recipe, Some(OreKind::Copper));
    assert_eq!(s.queue, 3);
}

#[test]
fn tick_decrements_timer() {
    let mut s = SmelterState::default();
    processing::start_smelting(&mut s, OreKind::Copper, 1);
    let ev = processing::tick_smelter(&mut s, 500);
    assert_eq!(ev, SmeltTickEvent::Nothing);
    assert_eq!(s.time_left_ms, SMELT_DURATION_MS - 500);
}

#[test]
fn full_tick_completes_one_item() {
    let mut s = SmelterState::default();
    processing::start_smelting(&mut s, OreKind::Copper, 2);
    let ev = processing::tick_smelter(&mut s, SMELT_DURATION_MS);
    assert_eq!(ev, SmeltTickEvent::BarFinished(OreKind::Copper));
    assert_eq!(s.queue, 1);
    assert_eq!(s.output.get(OreKind::Copper), 1);
    assert_eq!(s.recipe, Some(OreKind::Copper));
    assert_eq!(s.time_left_ms, SMELT_DURATION_MS);
}

#[test]
fn last_item_in_queue_returns_to_idle() {
    let mut s = SmelterState::default();
    processing::start_smelting(&mut s, OreKind::Silver, 1);
    let _ = processing::tick_smelter(&mut s, SMELT_DURATION_MS);
    assert_eq!(s.recipe, None);
    assert_eq!(s.queue, 0);
    assert!(!processing::is_busy(&s));
    assert_eq!(s.output.get(OreKind::Silver), 1);
}

#[test]
fn tick_overshoot_completes_exactly_one_item() {
    let mut s = SmelterState::default();
    processing::start_smelting(&mut s, OreKind::Copper, 5);
    let ev = processing::tick_smelter(&mut s, 100_000);
    assert_eq!(ev, SmeltTickEvent::BarFinished(OreKind::Copper));
    assert_eq!(s.queue, 4);
    assert_eq!(s.output.get(OreKind::Copper), 1);
    assert_eq!(s.time_left_ms, SMELT_DURATION_MS);
}

#[test]
fn tick_when_idle_is_noop() {
    let mut s = SmelterState::default();
    let ev = processing::tick_smelter(&mut s, 5000);
    assert_eq!(ev, SmeltTickEvent::Nothing);
    assert_eq!(s.recipe, None);
    assert!(s.output.is_empty());
}

#[test]
fn collect_output_drains_and_returns() {
    let mut s = SmelterState::default();
    processing::start_smelting(&mut s, OreKind::Gold, 3);
    for _ in 0..3 {
        let _ = processing::tick_smelter(&mut s, SMELT_DURATION_MS);
    }
    assert_eq!(s.output.get(OreKind::Gold), 3);
    let drained = processing::collect_output(&mut s);
    assert_eq!(drained.get(OreKind::Gold), 3);
    assert!(s.output.is_empty());
}

#[test]
fn collect_output_on_empty_returns_empty() {
    let mut s = SmelterState::default();
    let d = processing::collect_output(&mut s);
    assert!(d.is_empty());
}

// ---------- further cases ----------

#[test]
fn smelt_all_then_collect_all_turns_ore_into_bars() {
    let mut inv = Inventory::default();
    inv.add(ItemKind::Ore(OreKind::Silver), 2);
    let mut s = SmelterState::default();
    assert!(processing::smelt_all(&mut inv, &mut s, OreKind::Silver));
    assert_eq!(inv.get(ItemKind::Ore(OreKind::Silver)), 0);
    assert_eq!(s.queue, 2);
    // Busy smelters refuse a second load.
    inv.add(ItemKind::Ore(OreKind::Copper), 1);
    assert!(!processing::smelt_all(&mut inv, &mut s, OreKind::Copper));
    assert_eq!(inv.get(ItemKind::Ore(OreKind::Copper)), 1);
    let _ = processing::tick_smelter(&mut s, SMELT_DURATION_MS);
    let _ = processing::tick_smelter(&mut s, SMELT_DURATION_MS);
    assert!(!processing::is_busy(&s));
    processing::collect_all(&mut inv, &mut s);
    assert_eq!(inv.get(ItemKind::Bar(OreKind::Silver)), 2);
    assert!(s.output.is_empty());
}

#[test]
fn smelt_all_with_no_ore_does_nothing() {
    let mut inv = Inventory::default();
    let mut s = SmelterState::default();
    assert!(!processing::smelt_all(&mut inv, &mut s, OreKind::Gold));
    assert!(!processing::is_busy(&s));
}

#[test]
fn ore_counts_set_overwrites_one_ore_and_zero_clears_it() {
    let mut c = OreCounts::new();
    c.set(OreKind::Silver, 4);
    assert_eq!(c.get(OreKind::Silver), 4);
    assert_eq!(c.get(OreKind::Gold), 0);
    assert!(!c.is_empty());
    c.set(OreKind::Silver, 0);
    assert_eq!(c.get(OreKind::Silver), 0);
    assert!(c.is_empty());
}

#[test]
fn tick_that_finishes_no_bar_accepts_a_full_output_count() {
    let mut s = SmelterState::default();
    processing::start_smelting(&mut s, OreKind::Copper, 2);
    s.output.set(OreKind::Copper, u32::MAX);
    let ev = processing::tick_smelter(&mut s, SMELT_DURATION_MS - 1);
    assert_eq!(ev, SmeltTickEvent::Nothing);
    assert_eq!(s.time_left_ms, 1);
    assert_eq!(s.output.get(OreKind::Copper), u32::MAX);
}
