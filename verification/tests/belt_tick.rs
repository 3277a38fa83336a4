use miningsim::belt::{self, BeltDir, BeltTile};
use miningsim::belt_tick::apply_belt_moves;
use miningsim::coords::IVec2;
use miningsim::items::{ItemKind, OreKind};

fn tile(dir: BeltDir, item: Option<ItemKind>) -> BeltTile {
    BeltTile { item, dir }
}

const COPPER: ItemKind = ItemKind::Ore(OreKind::Copper);
const GOLD: ItemKind = ItemKind::Ore(OreKind::Gold);

#[test]
fn chain_advances_in_lockstep_without_losing_items() {
    let belts = vec![
        (IVec2::new(0, 0), tile(BeltDir::East, Some(COPPER))),
        (IVec2::new(1, 0), tile(BeltDir::East, Some(GOLD))),
        (IVec2::new(2, 0), tile(BeltDir::East, None)),
    ];
    // The source listed first moves onto a tile whose own item also moves.
    let moves = vec![(IVec2::new(0, 0), IVec2::new(1, 0)), (IVec2::new(1, 0), IVec2::new(2, 0))];
    let out = apply_belt_moves(&belts, &moves);
    assert_eq!(out[0], (IVec2::new(0, 0), tile(BeltDir::East, None)));
    assert_eq!(out[1], (IVec2::new(1, 0), tile(BeltDir::East, Some(COPPER))));
    assert_eq!(out[2], (IVec2::new(2, 0), tile(BeltDir::East, Some(GOLD))));
}

#[test]
fn move_off_the_belts_leaves_the_item() {
    let belts = vec![(IVec2::new(0, 0), tile(BeltDir::East, Some(COPPER)))];
    let moves = vec![(IVec2::new(0, 0), IVec2::new(1, 0))];
    let out = apply_belt_moves(&belts, &moves);
    assert_eq!(out, belts);
}

#[test]
fn computed_advances_applied_to_a_loop_rotate_items() {
    let dirs = vec![
        (IVec2::new(0, 0), BeltDir::East),
        (IVec2::new(1, 0), BeltDir::South),
        (IVec2::new(1, 1), BeltDir::West),
        (IVec2::new(0, 1), BeltDir::North),
    ];
    let items = [COPPER, GOLD, COPPER, GOLD];
    let belts: Vec<(IVec2, BeltTile)> = dirs.iter().zip(items.iter()).map(|(&(p, d), &i)| (p, tile(d, Some(i)))).collect();
    let present: Vec<IVec2> = dirs.iter().map(|(p, _)| *p).collect();
    let moves = belt::compute_belt_advances(&dirs, &present);
    assert_eq!(moves.len(), 4);
    let out = apply_belt_moves(&belts, &moves);
    assert_eq!(out[1].1.item, Some(COPPER));
    assert_eq!(out[2].1.item, Some(GOLD));
    assert_eq!(out[3].1.item, Some(COPPER));
    assert_eq!(out[0].1.item, Some(GOLD));
}

#[test]
fn facing_belts_keep_their_items() {
    let dirs = vec![(IVec2::new(1, 0), BeltDir::East), (IVec2::new(2, 0), BeltDir::West)];
    let belts = vec![
        (IVec2::new(1, 0), tile(BeltDir::East, Some(COPPER))),
        (IVec2::new(2, 0), tile(BeltDir::West, Some(GOLD))),
    ];
    let moves = belt::compute_belt_advances(&dirs, &[IVec2::new(1, 0), IVec2::new(2, 0)]);
    let out = apply_belt_moves(&belts, &moves);
    assert_eq!(out, belts);
}
