use miningsim::coords::IVec2;
use miningsim::dig::{self, DigStatus};
use miningsim::grid::{Grid, Layer, Tile};
use miningsim::items::OreKind;
use miningsim::tools::{OwnedTools, Tool};

fn make_test_grid() -> Grid {
    let mut g = Grid::new(10, 10);
    g.set(3, 3, Tile { solid: true, layer: Layer::Dirt, ore: Some(OreKind::Copper), damage: 0 });
    g.set(4, 3, Tile { solid: true, layer: Layer::Stone, ore: None, damage: 0 });
    g.set(5, 3, Tile { solid: true, layer: Layer::Deep, ore: None, damage: 0 });
    g.set(6, 3, Tile { solid: true, layer: Layer::Core, ore: None, damage: 0 });
    g.set(0, 0, Tile { solid: true, layer: Layer::Bedrock, ore: None, damage: 0 });
    g
}

#[test]
fn shovel_on_dirt_at_tier_takes_three_strikes() {
    let mut g = make_test_grid();
    let t = IVec2::new(3, 3);
    let r1 = dig::try_dig(&mut g, t, Tool::Shovel);
    assert_eq!(r1.status, DigStatus::Damaged);
    assert_eq!(g.get(3, 3).unwrap().damage, 1);
    let r2 = dig::try_dig(&mut g, t, Tool::Shovel);
    assert_eq!(r2.status, DigStatus::Damaged);
    assert_eq!(g.get(3, 3).unwrap().damage, 2);
    let r3 = dig::try_dig(&mut g, t, Tool::Shovel);
    assert_eq!(r3.status, DigStatus::Broken);
    assert_eq!(r3.ore, Some(OreKind::Copper));
    assert!(!g.get(3, 3).unwrap().solid);
    assert_eq!(g.get(3, 3).unwrap().damage, 0);
}

#[test]
fn pickaxe_on_dirt_one_above_tier_takes_two_strikes() {
    let mut g = make_test_grid();
    let t = IVec2::new(3, 3);
    assert_eq!(dig::try_dig(&mut g, t, Tool::Pickaxe).status, DigStatus::Damaged);
    assert_eq!(dig::try_dig(&mut g, t, Tool::Pickaxe).status, DigStatus::Broken);
}

#[test]
fn jackhammer_on_dirt_two_above_tier_takes_one_strike() {
    let mut g = make_test_grid();
    let t = IVec2::new(3, 3);
    assert_eq!(dig::try_dig(&mut g, t, Tool::Jackhammer).status, DigStatus::Broken);
}

#[test]
fn shovel_on_stone_under_tier_returns_under_tier_no_damage() {
    let mut g = make_test_grid();
    let t = IVec2::new(4, 3);
    let r = dig::try_dig(&mut g, t, Tool::Shovel);
    assert_eq!(r.status, DigStatus::UnderTier);
    assert_eq!(g.get(4, 3).unwrap().damage, 0);
    assert!(g.get(4, 3).unwrap().solid);
}

#[test]
fn any_tool_on_bedrock_returns_under_tier_never_damages() {
    let mut g = make_test_grid();
    let t = IVec2::new(0, 0);
    assert_eq!(dig::try_dig(&mut g, t, Tool::Dynamite).status, DigStatus::UnderTier);
    assert_eq!(g.get(0, 0).unwrap().damage, 0);
    assert!(g.get(0, 0).unwrap().solid);
}

#[test]
fn dynamite_on_core_at_tier_takes_three_strikes() {
    let mut g = make_test_grid();
    let t = IVec2::new(6, 3);
    for _ in 0..2 {
        assert_eq!(dig::try_dig(&mut g, t, Tool::Dynamite).status, DigStatus::Damaged);
    }
    assert_eq!(dig::try_dig(&mut g, t, Tool::Dynamite).status, DigStatus::Broken);
}

#[test]
fn tool_upgrade_mid_mining_breaks_immediately_when_threshold_met() {
    let mut g = make_test_grid();
    let t = IVec2::new(4, 3);
    assert_eq!(dig::try_dig(&mut g, t, Tool::Pickaxe).status, DigStatus::Damaged);
    assert_eq!(dig::try_dig(&mut g, t, Tool::Pickaxe).status, DigStatus::Damaged);
    assert_eq!(g.get(4, 3).unwrap().damage, 2);
    assert_eq!(dig::try_dig(&mut g, t, Tool::Jackhammer).status, DigStatus::Broken);
}

#[test]
fn dig_out_of_bounds_is_noop() {
    let mut g = make_test_grid();
    let r = dig::try_dig(&mut g, IVec2::new(-1, 5), Tool::Shovel);
    assert_eq!(r.status, DigStatus::OutOfBounds);
}

#[test]
fn dig_already_empty_is_noop_does_not_increment_damage() {
    let mut g = make_test_grid();
    let t = IVec2::new(3, 3);
    dig::try_dig(&mut g, t, Tool::Jackhammer);
    assert!(!g.get(3, 3).unwrap().solid);
    let r = dig::try_dig(&mut g, t, Tool::Jackhammer);
    assert_eq!(r.status, DigStatus::AlreadyEmpty);
    assert_eq!(g.get(3, 3).unwrap().damage, 0);
}

#[test]
fn dig_target_valid_accepts_cardinal_within_reach() {
    let g = Grid::new(10, 10);
    let p = IVec2::new(5, 5);
    assert!(dig::dig_target_valid(p, IVec2::new(6, 5), 2, &g));
    assert!(dig::dig_target_valid(p, IVec2::new(4, 5), 2, &g));
    assert!(dig::dig_target_valid(p, IVec2::new(5, 6), 2, &g));
    assert!(dig::dig_target_valid(p, IVec2::new(5, 4), 2, &g));
}

#[test]
fn dig_target_valid_rejects_diagonal() {
    let g = Grid::new(10, 10);
    let p = IVec2::new(5, 5);
    assert!(!dig::dig_target_valid(p, IVec2::new(6, 6), 2, &g));
    assert!(!dig::dig_target_valid(p, IVec2::new(4, 4), 2, &g));
}

#[test]
fn dig_target_valid_rejects_beyond_reach() {
    let g = Grid::new(10, 10);
    let p = IVec2::new(5, 5);
    assert!(!dig::dig_target_valid(p, IVec2::new(8, 5), 2, &g));
}

#[test]
fn dig_target_valid_rejects_same_tile() {
    let g = Grid::new(10, 10);
    let p = IVec2::new(5, 5);
    assert!(!dig::dig_target_valid(p, IVec2::new(5, 5), 2, &g));
}

#[test]
fn dig_target_valid_rejects_when_intermediate_tile_is_solid() {
    let g = Grid::new(10, 10);
    let p = IVec2::new(5, 5);
    assert!(!dig::dig_target_valid(p, IVec2::new(7, 5), 2, &g));
}

#[test]
fn dig_target_valid_accepts_reach_2_when_intermediate_is_empty() {
    let mut g = Grid::new(10, 10);
    let t = Tile { solid: false, layer: Layer::Dirt, ore: None, damage: 0 };
    g.set(6, 5, t);
    let p = IVec2::new(5, 5);
    assert!(dig::dig_target_valid(p, IVec2::new(7, 5), 2, &g));
}

// ---------- further cases ----------

#[test]
fn dig_target_valid_rejects_when_intermediate_is_outside_grid() {
    let g = Grid::new(3, 3);
    // Player outside the grid to the left; the tile in between is outside too.
    assert!(!dig::dig_target_valid(IVec2::new(-2, 1), IVec2::new(0, 1), 2, &g));
}

#[test]
fn dig_with_best_tool_uses_strongest_owned_tool() {
    let mut g = make_test_grid();
    let owned = OwnedTools::from_tools(&[Tool::Shovel, Tool::Pickaxe]);
    let mut floor = g.get(3, 4).copied().unwrap();
    floor.solid = false;
    g.set(3, 4, floor);
    let r = dig::dig_with_best_tool(&mut g, IVec2::new(3, 4), IVec2::new(3, 3), dig::DIG_REACH_TILES, &owned);
    let (tool, res) = r.unwrap();
    assert_eq!(tool, Tool::Pickaxe);
    assert_eq!(res.status, DigStatus::Damaged);
    assert_eq!(g.get(3, 3).unwrap().damage, 1);
}

#[test]
fn dig_with_best_tool_rejects_unbreakable_layer_without_change() {
    let mut g = make_test_grid();
    let owned = OwnedTools::from_tools(&[Tool::Shovel]);
    // Stone at (4,3) from (4,4): adjacent, but the shovel cannot break stone.
    let r = dig::dig_with_best_tool(&mut g, IVec2::new(4, 4), IVec2::new(4, 3), 2, &owned);
    assert!(r.is_none());
    assert_eq!(g.get(4, 3).unwrap().damage, 0);
    // Diagonal targets are rejected outright.
    let r2 = dig::dig_with_best_tool(&mut g, IVec2::new(4, 4), IVec2::new(5, 5), 2, &owned);
    assert!(r2.is_none());
}
