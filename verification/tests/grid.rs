use miningsim::grid::{Grid, Layer, Tile};
use miningsim::items::OreKind;

#[test]
fn new_grid_has_requested_dimensions() {
    let g = Grid::new(10, 20);
    assert_eq!(g.width(), 10);
    assert_eq!(g.height(), 20);
}

#[test]
fn new_grid_default_tiles_are_solid_dirt_no_ore() {
    let g = Grid::new(3, 3);
    let t = g.get(1, 1).expect("in bounds");
    assert!(t.solid);
    assert_eq!(t.layer, Layer::Dirt);
    assert_eq!(t.ore, None);
}

#[test]
fn set_and_get_round_trip() {
    let mut g = Grid::new(3, 3);
    g.set(1, 1, Tile { solid: false, layer: Layer::Stone, ore: Some(OreKind::Silver), damage: 0 });
    let t = g.get(1, 1).unwrap();
    assert!(!t.solid);
    assert_eq!(t.layer, Layer::Stone);
    assert_eq!(t.ore, Some(OreKind::Silver));
}

#[test]
fn in_bounds_check() {
    let g = Grid::new(5, 5);
    assert!(g.in_bounds(0, 0));
    assert!(g.in_bounds(4, 4));
    assert!(!g.in_bounds(-1, 0));
    assert!(!g.in_bounds(0, -1));
    assert!(!g.in_bounds(5, 0));
    assert!(!g.in_bounds(0, 5));
}

#[test]
fn get_out_of_bounds_returns_none() {
    let g = Grid::new(3, 3);
    assert!(g.get(-1, 0).is_none());
    assert!(g.get(3, 0).is_none());
}

#[test]
#[should_panic]
fn set_out_of_bounds_panics() {
    let mut g = Grid::new(3, 3);
    g.set(5, 5, Tile { solid: true, layer: Layer::Dirt, ore: None, damage: 0 });
}

// ---------- further cases ----------

#[test]
fn set_leaves_other_tiles_alone() {
    let mut g = Grid::new(4, 3);
    g.set(2, 1, Tile { solid: false, layer: Layer::Core, ore: None, damage: 1 });
    for y in 0..3 {
        for x in 0..4 {
            let t = *g.get(x, y).unwrap();
            if (x, y) == (2, 1) {
                assert_eq!(t.layer, Layer::Core);
            } else {
                assert_eq!(t, Tile::default());
            }
        }
    }
}

#[test]
fn get_mut_edits_in_place() {
    let mut g = Grid::new(3, 3);
    if let Some(t) = g.get_mut(2, 0) {
        t.damage = 2;
    }
    assert_eq!(g.get(2, 0).unwrap().damage, 2);
    assert!(g.get_mut(3, 0).is_none());
}

#[test]
fn from_raw_lays_tiles_out_by_rows() {
    let mut tiles = vec![Tile::default(); 6];
    tiles[4] = Tile { solid: false, layer: Layer::Deep, ore: Some(OreKind::Gold), damage: 0 };
    let g = Grid::from_raw(3, 2, tiles);
    assert_eq!(g.get(1, 1).unwrap().layer, Layer::Deep);
    assert_eq!(g.get(1, 0).unwrap().layer, Layer::Dirt);
}
