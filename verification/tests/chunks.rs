use miningsim::chunks::{self, CHUNK_TILES};
use miningsim::coords::IVec2;
use miningsim::grid::{Grid, Layer, Tile};
use miningsim::marching_squares::{self, CellPoint};

#[test]
fn chunk_of_tile_floors_negative_coordinates() {
    assert_eq!(chunks::chunk_of_tile(IVec2::new(0, 15)), IVec2::new(0, 0));
    assert_eq!(chunks::chunk_of_tile(IVec2::new(16, 31)), IVec2::new(1, 1));
    assert_eq!(chunks::chunk_of_tile(IVec2::new(-1, -16)), IVec2::new(-1, -1));
    assert_eq!(chunks::chunk_of_tile(IVec2::new(-17, 5)), IVec2::new(-2, 0));
}

#[test]
fn wanted_chunks_cover_view_with_margin_inside_grid() {
    // A 40 x 20 grid has chunks x in 0..=2, y in 0..=1.
    let want = chunks::wanted_chunks(IVec2::new(1, 1), IVec2::new(0, 0), 40, 20);
    assert_eq!(want.len(), 6);
    for cy in 0..=1 {
        for cx in 0..=2 {
            assert!(want.contains(&IVec2::new(cx, cy)));
        }
    }
    assert!(!want.contains(&IVec2::new(-1, 0)));
}

#[test]
fn cell_mask_bits_follow_corners() {
    assert_eq!(marching_squares::cell_mask(true, false, false, false), 1);
    assert_eq!(marching_squares::cell_mask(false, true, false, true), 10);
    assert_eq!(marching_squares::cell_mask(true, true, true, true), 15);
}

#[test]
fn cell_triangles_table_sizes() {
    assert!(marching_squares::cell_triangles(0).is_empty());
    let sizes = [0, 1, 1, 2, 1, 2, 2, 3, 1, 2, 2, 3, 2, 3, 3, 2];
    for m in 0..16u8 {
        assert_eq!(marching_squares::cell_triangles(m).len(), sizes[m as usize]);
    }
    let full = marching_squares::cell_triangles(15);
    assert_eq!(full[0].a, CellPoint::C3);
}

#[test]
fn chunk_cells_sample_outside_grid_as_solid_bedrock() {
    let mut g = Grid::new(2, 2);
    g.set(0, 0, Tile { solid: false, layer: Layer::Dirt, ore: None, damage: 0 });
    g.set(1, 0, Tile { solid: true, layer: Layer::Stone, ore: None, damage: 0 });
    let cells = marching_squares::chunk_cells(&g, IVec2::new(0, 0));
    assert_eq!(cells.len(), (CHUNK_TILES * CHUNK_TILES) as usize);
    // Cell (0,0): corners (0,0) empty, (1,0) stone, (1,1) dirt, (0,1) dirt.
    assert_eq!(cells[0].mask, 14);
    assert_eq!(cells[0].layer, Layer::Stone);
    // Far cell lies entirely outside the grid.
    assert_eq!(cells[255].mask, 15);
    assert_eq!(cells[255].layer, Layer::Bedrock);
    assert_eq!((cells[17].gx, cells[17].gy), (1, 1));
}

#[test]
fn chunk_triangle_list_follows_cells_in_order() {
    // A 3x3 grid with only the centre tile solid: the chunk at (0, 0) has
    // four cells touching the centre, one corner triangle each.
    let mut g = Grid::new(3, 3);
    for y in 0..3 {
        for x in 0..3 {
            g.set(x, y, Tile { solid: false, layer: Layer::Dirt, ore: None, damage: 0 });
        }
    }
    g.set(1, 1, Tile { solid: true, layer: Layer::Stone, ore: None, damage: 0 });
    let cells = marching_squares::chunk_cells(&g, IVec2::new(0, 0));
    let tris = marching_squares::chunk_triangle_list(&cells);
    // Cells inside the grid: (0,0) has c2 solid, (1,0) c3, (0,1) c1, (1,1) c0.
    // Cells reaching out of the grid are solid on their outer corners.
    let first: Vec<_> = tris.iter().filter(|(c, _)| c.gx == 0 && c.gy == 0).collect();
    assert_eq!(first.len(), 1);
    assert_eq!(first[0].1.a, CellPoint::C2);
    assert_eq!(first[0].0.layer, Layer::Stone);
    let mut last_index = 0;
    for (c, _) in &tris {
        let index = (c.gy * CHUNK_TILES + c.gx) as i32;
        assert!(index >= last_index, "triangles follow the cells' order");
        last_index = index;
    }
}

#[test]
fn chunk_without_solid_corner_has_no_triangles() {
    let mut g = Grid::new(40, 40);
    for y in 0..40 {
        for x in 0..40 {
            g.set(x, y, Tile { solid: false, layer: Layer::Dirt, ore: None, damage: 0 });
        }
    }
    let cells = marching_squares::chunk_cells(&g, IVec2::new(1, 1));
    assert!(cells.iter().all(|c| c.mask == 0));
    assert!(marching_squares::chunk_triangle_list(&cells).is_empty());
}
