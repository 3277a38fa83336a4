use miningsim::belt::{self, BeltDir, BeltTile, BeltVisual};
use miningsim::coords::IVec2;
use miningsim::items::{ItemKind, OreKind};
use std::collections::HashSet;

#[test]
fn belt_dir_delta_cardinals() {
    assert_eq!(BeltDir::North.delta(), IVec2::new(0, -1));
    assert_eq!(BeltDir::South.delta(), IVec2::new(0, 1));
    assert_eq!(BeltDir::East.delta(), IVec2::new(1, 0));
    assert_eq!(BeltDir::West.delta(), IVec2::new(-1, 0));
}

#[test]
fn belt_dir_opposite_round_trip() {
    for dir in [BeltDir::North, BeltDir::East, BeltDir::South, BeltDir::West] {
        assert_eq!(dir.opposite().opposite(), dir);
    }
}

#[test]
fn belt_dir_rotate_cw_cycles() {
    let mut dir = BeltDir::North;
    for _ in 0..4 {
        dir = dir.rotate_cw();
    }
    assert_eq!(dir, BeltDir::North);
    assert_eq!(BeltDir::North.rotate_cw(), BeltDir::East);
    assert_eq!(BeltDir::East.rotate_cw(), BeltDir::South);
    assert_eq!(BeltDir::South.rotate_cw(), BeltDir::West);
    assert_eq!(BeltDir::West.rotate_cw(), BeltDir::North);
}

#[test]
fn next_tile_basic() {
    assert_eq!(belt::next_tile(IVec2::new(5, 5), BeltDir::East), IVec2::new(6, 5));
    assert_eq!(belt::next_tile(IVec2::new(5, 5), BeltDir::West), IVec2::new(4, 5));
    assert_eq!(belt::next_tile(IVec2::new(5, 5), BeltDir::North), IVec2::new(5, 4));
    assert_eq!(belt::next_tile(IVec2::new(5, 5), BeltDir::South), IVec2::new(5, 6));
}

#[test]
fn belt_tile_default_empty() {
    let t = BeltTile::new(BeltDir::East);
    assert_eq!(t.item, None);
    assert_eq!(t.dir, BeltDir::East);
}

#[test]
fn belt_tile_holds_item() {
    let mut t = BeltTile::new(BeltDir::East);
    t.item = Some(ItemKind::Ore(OreKind::Copper));
    assert_eq!(t.item, Some(ItemKind::Ore(OreKind::Copper)));
}

#[test]
fn belt_visual_straight_no_feeder() {
    assert_eq!(belt::belt_visual_kind(BeltDir::East, None), BeltVisual::Straight);
}

#[test]
fn belt_visual_aligned_feeder_is_straight() {
    assert_eq!(belt::belt_visual_kind(BeltDir::East, Some(BeltDir::East)), BeltVisual::Straight);
}

#[test]
fn belt_visual_corner_from_south() {
    assert_eq!(belt::belt_visual_kind(BeltDir::East, Some(BeltDir::North)), BeltVisual::CornerSE);
}

#[test]
fn belt_visual_corner_from_north() {
    assert_eq!(belt::belt_visual_kind(BeltDir::East, Some(BeltDir::South)), BeltVisual::CornerNE);
}

#[test]
fn belt_visual_all_corners() {
    assert_eq!(belt::belt_visual_kind(BeltDir::East, Some(BeltDir::South)), BeltVisual::CornerNE);
    assert_eq!(belt::belt_visual_kind(BeltDir::East, Some(BeltDir::North)), BeltVisual::CornerSE);
    assert_eq!(belt::belt_visual_kind(BeltDir::West, Some(BeltDir::South)), BeltVisual::CornerNW);
    assert_eq!(belt::belt_visual_kind(BeltDir::West, Some(BeltDir::North)), BeltVisual::CornerSW);
    assert_eq!(belt::belt_visual_kind(BeltDir::North, Some(BeltDir::East)), BeltVisual::CornerNW);
    assert_eq!(belt::belt_visual_kind(BeltDir::North, Some(BeltDir::West)), BeltVisual::CornerNE);
    assert_eq!(belt::belt_visual_kind(BeltDir::South, Some(BeltDir::East)), BeltVisual::CornerSW);
    assert_eq!(belt::belt_visual_kind(BeltDir::South, Some(BeltDir::West)), BeltVisual::CornerSE);
}

#[test]
fn belt_visual_feeder_facing_away_is_straight() {
    assert_eq!(belt::belt_visual_kind(BeltDir::East, Some(BeltDir::West)), BeltVisual::Straight);
}

fn dirs(pairs: &[(IVec2, BeltDir)]) -> Vec<(IVec2, BeltDir)> {
    pairs.to_vec()
}

fn items(positions: &[IVec2]) -> Vec<IVec2> {
    positions.to_vec()
}

#[test]
fn back_pressure_chain_clears_simultaneously() {
    let belt_dirs = dirs(&[
        (IVec2::new(0, 0), BeltDir::East),
        (IVec2::new(1, 0), BeltDir::East),
        (IVec2::new(2, 0), BeltDir::East),
    ]);
    let item_positions = items(&[IVec2::new(0, 0), IVec2::new(1, 0), IVec2::new(2, 0)]);
    let moves = belt::compute_belt_advances(&belt_dirs, &item_positions);
    let moves_set: HashSet<(IVec2, IVec2)> = moves.into_iter().collect();
    assert!(moves_set.contains(&(IVec2::new(2, 0), IVec2::new(3, 0))));
    assert!(moves_set.contains(&(IVec2::new(1, 0), IVec2::new(2, 0))));
    assert!(moves_set.contains(&(IVec2::new(0, 0), IVec2::new(1, 0))));
    assert_eq!(moves_set.len(), 3);
}

#[test]
fn back_pressure_blocks_when_destination_full() {
    let belt_dirs = dirs(&[(IVec2::new(0, 0), BeltDir::East), (IVec2::new(1, 0), BeltDir::East)]);
    let item_positions = items(&[IVec2::new(0, 0), IVec2::new(1, 0)]);
    let moves = belt::compute_belt_advances(&belt_dirs, &item_positions);
    let moves_set: HashSet<(IVec2, IVec2)> = moves.into_iter().collect();
    assert!(moves_set.contains(&(IVec2::new(1, 0), IVec2::new(2, 0))));
    assert!(moves_set.contains(&(IVec2::new(0, 0), IVec2::new(1, 0))));
    assert_eq!(moves_set.len(), 2);
}

#[test]
fn back_pressure_saturated_cycle_rotates() {
    let belt_dirs = dirs(&[
        (IVec2::new(0, 0), BeltDir::East),
        (IVec2::new(1, 0), BeltDir::South),
        (IVec2::new(1, 1), BeltDir::West),
        (IVec2::new(0, 1), BeltDir::North),
    ]);
    let item_positions = items(&[IVec2::new(0, 0), IVec2::new(1, 0), IVec2::new(1, 1), IVec2::new(0, 1)]);
    let moves = belt::compute_belt_advances(&belt_dirs, &item_positions);
    let moves_set: HashSet<(IVec2, IVec2)> = moves.into_iter().collect();
    assert_eq!(moves_set.len(), 4, "all four cycle members should rotate");
    assert!(moves_set.contains(&(IVec2::new(0, 0), IVec2::new(1, 0))));
    assert!(moves_set.contains(&(IVec2::new(1, 0), IVec2::new(1, 1))));
    assert!(moves_set.contains(&(IVec2::new(1, 1), IVec2::new(0, 1))));
    assert!(moves_set.contains(&(IVec2::new(0, 1), IVec2::new(0, 0))));
}

#[test]
fn back_pressure_cycle_with_slack_rotates() {
    let belt_dirs = dirs(&[
        (IVec2::new(0, 0), BeltDir::East),
        (IVec2::new(1, 0), BeltDir::South),
        (IVec2::new(1, 1), BeltDir::West),
        (IVec2::new(0, 1), BeltDir::North),
    ]);
    let item_positions = items(&[IVec2::new(0, 0), IVec2::new(1, 0), IVec2::new(1, 1)]);
    let moves = belt::compute_belt_advances(&belt_dirs, &item_positions);
    let moves_set: HashSet<(IVec2, IVec2)> = moves.into_iter().collect();
    assert!(moves_set.contains(&(IVec2::new(0, 0), IVec2::new(1, 0))));
    assert!(moves_set.contains(&(IVec2::new(1, 0), IVec2::new(1, 1))));
    assert!(moves_set.contains(&(IVec2::new(1, 1), IVec2::new(0, 1))));
    assert_eq!(moves_set.len(), 3);
}

#[test]
fn back_pressure_rho_shape_propagates_after_cycle() {
    let belt_dirs = dirs(&[
        (IVec2::new(-1, 0), BeltDir::East),
        (IVec2::new(0, 0), BeltDir::East),
        (IVec2::new(1, 0), BeltDir::South),
        (IVec2::new(1, 1), BeltDir::West),
        (IVec2::new(0, 1), BeltDir::North),
    ]);
    let item_positions = items(&[
        IVec2::new(-1, 0),
        IVec2::new(0, 0),
        IVec2::new(1, 0),
        IVec2::new(1, 1),
        IVec2::new(0, 1),
    ]);
    let moves = belt::compute_belt_advances(&belt_dirs, &item_positions);
    let moves_set: HashSet<(IVec2, IVec2)> = moves.into_iter().collect();
    assert!(
        moves_set.contains(&(IVec2::new(-1, 0), IVec2::new(0, 0))),
        "tail should advance into vacated cycle slot"
    );
    assert!(moves_set.contains(&(IVec2::new(0, 0), IVec2::new(1, 0))));
    assert!(moves_set.contains(&(IVec2::new(1, 0), IVec2::new(1, 1))));
    assert!(moves_set.contains(&(IVec2::new(1, 1), IVec2::new(0, 1))));
    assert_eq!(moves_set.len(), 4);
}

#[test]
fn back_pressure_y_merge_arbitrates_to_single_winner() {
    let belt_dirs = dirs(&[(IVec2::new(4, 5), BeltDir::East), (IVec2::new(5, 4), BeltDir::South)]);
    let item_positions = items(&[IVec2::new(4, 5), IVec2::new(5, 4)]);
    let moves = belt::compute_belt_advances(&belt_dirs, &item_positions);
    assert_eq!(moves.len(), 1, "Y-merge arbitration should keep exactly one move per destination");
    assert_eq!(moves[0], (IVec2::new(4, 5), IVec2::new(5, 5)));
}

// ---------- further cases ----------

#[test]
fn back_pressure_chain_into_stationary_item_stalls() {
    // The head's destination (2,0) holds an item but is not a belt: nothing moves.
    let belt_dirs = dirs(&[(IVec2::new(0, 0), BeltDir::East), (IVec2::new(1, 0), BeltDir::East)]);
    let item_positions = items(&[IVec2::new(0, 0), IVec2::new(1, 0), IVec2::new(2, 0)]);
    let moves = belt::compute_belt_advances(&belt_dirs, &item_positions);
    assert!(moves.is_empty());
}

#[test]
fn back_pressure_facing_belts_stall() {
    // Two loaded belts facing each other: each destination holds an item that
    // points back into the head, so neither moves.
    let belt_dirs = dirs(&[(IVec2::new(1, 0), BeltDir::East), (IVec2::new(2, 0), BeltDir::West)]);
    let item_positions = items(&[IVec2::new(1, 0), IVec2::new(2, 0)]);
    let moves = belt::compute_belt_advances(&belt_dirs, &item_positions);
    assert!(moves.is_empty());
}

#[test]
fn back_pressure_chain_into_facing_belts_stalls() {
    // A tail feeding one of two facing belts stalls with them.
    let belt_dirs = dirs(&[
        (IVec2::new(0, 0), BeltDir::East),
        (IVec2::new(1, 0), BeltDir::East),
        (IVec2::new(2, 0), BeltDir::West),
    ]);
    let item_positions = items(&[IVec2::new(0, 0), IVec2::new(1, 0), IVec2::new(2, 0)]);
    let moves = belt::compute_belt_advances(&belt_dirs, &item_positions);
    assert!(moves.is_empty());
}

#[test]
fn back_pressure_facing_belt_without_item_accepts() {
    // The destination belt faces back but holds nothing: the head moves.
    let belt_dirs = dirs(&[(IVec2::new(1, 0), BeltDir::East), (IVec2::new(2, 0), BeltDir::West)]);
    let item_positions = items(&[IVec2::new(1, 0)]);
    let moves = belt::compute_belt_advances(&belt_dirs, &item_positions);
    assert_eq!(moves, vec![(IVec2::new(1, 0), IVec2::new(2, 0))]);
}

#[test]
fn back_pressure_empty_belts_make_no_moves() {
    let belt_dirs = dirs(&[(IVec2::new(0, 0), BeltDir::East)]);
    let moves = belt::compute_belt_advances(&belt_dirs, &[]);
    assert!(moves.is_empty());
}

#[test]
fn back_pressure_moves_sorted_and_order_independent() {
    let a = dirs(&[
        (IVec2::new(2, 0), BeltDir::East),
        (IVec2::new(0, 0), BeltDir::East),
        (IVec2::new(1, 0), BeltDir::East),
    ]);
    let b = dirs(&[
        (IVec2::new(1, 0), BeltDir::East),
        (IVec2::new(2, 0), BeltDir::East),
        (IVec2::new(0, 0), BeltDir::East),
    ]);
    let it = items(&[IVec2::new(1, 0), IVec2::new(0, 0), IVec2::new(2, 0)]);
    let ma = belt::compute_belt_advances(&a, &it);
    let mb = belt::compute_belt_advances(&b, &it);
    assert_eq!(ma, mb);
    assert_eq!(
        ma,
        vec![
            (IVec2::new(0, 0), IVec2::new(1, 0)),
            (IVec2::new(1, 0), IVec2::new(2, 0)),
            (IVec2::new(2, 0), IVec2::new(3, 0)),
        ]
    );
}

#[test]
fn can_place_belt_on_free_floor_only() {
    let occupied = vec![IVec2::new(3, 3)];
    assert!(belt::can_place_belt(IVec2::new(2, 3), true, &occupied));
    assert!(!belt::can_place_belt(IVec2::new(3, 3), true, &occupied));
    assert!(!belt::can_place_belt(IVec2::new(2, 3), false, &occupied));
}

#[test]
fn perpendicular_feeder_finds_side_feeder() {
    // Belt at (5,5) facing East; a belt south of it at (5,6) facing North feeds it.
    let belts = dirs(&[(IVec2::new(5, 5), BeltDir::East), (IVec2::new(5, 6), BeltDir::North)]);
    assert_eq!(belt::perpendicular_feeder(IVec2::new(5, 5), BeltDir::East, &belts), Some(BeltDir::North));
    // A belt south facing South points away: no feeder.
    let belts2 = dirs(&[(IVec2::new(5, 5), BeltDir::East), (IVec2::new(5, 6), BeltDir::South)]);
    assert_eq!(belt::perpendicular_feeder(IVec2::new(5, 5), BeltDir::East, &belts2), None);
    // Feeder from the north (facing South).
    let belts3 = dirs(&[(IVec2::new(5, 5), BeltDir::East), (IVec2::new(5, 4), BeltDir::South)]);
    assert_eq!(belt::perpendicular_feeder(IVec2::new(5, 5), BeltDir::East, &belts3), Some(BeltDir::South));
    assert_eq!(belt::belt_at(&belts3, IVec2::new(5, 4)), Some(BeltDir::South));
    assert_eq!(belt::belt_at(&belts3, IVec2::new(9, 9)), None);
}
