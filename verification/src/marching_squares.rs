//! Marching-squares tables for terrain chunk meshes.
//!
//! Tile centres are the corners of marching-squares cells: a chunk of N x N
//! tiles has N x N cells, each spanning from a tile centre to the centres of
//! its right, lower and lower-right neighbours. Samples outside the grid count
//! as solid bedrock so that map edges close.
//!
//! Corner / edge layout (world Y up):
//!
//! ```text
//!     c0 ---- e0 ---- c1
//!      |              |
//!     e3              e1
//!      |              |
//!     c3 ---- e2 ---- c2
//! ```
//!
//! Bit k of a cell's mask is set iff corner k is solid. Triangles wind
//! counter-clockwise.

use vstd::prelude::*;
use crate::chunks::CHUNK_TILES;
use crate::coords::IVec2;
use crate::grid::{Grid, Layer};

verus! {

/// A corner (`C*`) or edge midpoint (`E*`) of a cell.
#[derive(Clone, Copy, Debug, PartialEq, Eq, Structural)]
pub enum CellPoint {
    C0,
    C1,
    C2,
    C3,
    E0,
    E1,
    E2,
    E3,
}

/// A triangle over cell points, counter-clockwise.
#[derive(Clone, Copy, Debug, PartialEq, Eq, Structural)]
pub struct CellTriangle {
    pub a: CellPoint,
    pub b: CellPoint,
    pub c: CellPoint,
}

pub open spec fn tri(a: CellPoint, b: CellPoint, c: CellPoint) -> CellTriangle {
    CellTriangle { a, b, c }
}

/// The triangles that fill the solid part of a cell with corner mask `mask`.
pub open spec fn spec_cell_triangles(mask: u8) -> Seq<CellTriangle> {
    if mask == 1 {
        seq![tri(CellPoint::C0, CellPoint::E3, CellPoint::E0)]
    } else if mask == 2 {
        seq![tri(CellPoint::C1, CellPoint::E0, CellPoint::E1)]
    } else if mask == 4 {
        seq![tri(CellPoint::C2, CellPoint::E1, CellPoint::E2)]
    } else if mask == 8 {
        seq![tri(CellPoint::C3, CellPoint::E2, CellPoint::E3)]
    } else if mask == 3 {
        seq![tri(CellPoint::C0, CellPoint::E3, CellPoint::E1), tri(CellPoint::C0, CellPoint::E1, CellPoint::C1)]
    } else if mask == 6 {
        seq![tri(CellPoint::C1, CellPoint::E0, CellPoint::E2), tri(CellPoint::C1, CellPoint::E2, CellPoint::C2)]
    } else if mask == 12 {
        seq![tri(CellPoint::C2, CellPoint::E1, CellPoint::E3), tri(CellPoint::C2, CellPoint::E3, CellPoint::C3)]
    } else if mask == 9 {
        seq![tri(CellPoint::C0, CellPoint::C3, CellPoint::E2), tri(CellPoint::C0, CellPoint::E2, CellPoint::E0)]
    } else if mask == 5 {
        seq![tri(CellPoint::C0, CellPoint::E3, CellPoint::E0), tri(CellPoint::C2, CellPoint::E1, CellPoint::E2)]
    } else if mask == 10 {
        seq![tri(CellPoint::C1, CellPoint::E0, CellPoint::E1), tri(CellPoint::C3, CellPoint::E2, CellPoint::E3)]
    } else if mask == 14 {
        seq![tri(CellPoint::E3, CellPoint::C3, CellPoint::C2), tri(CellPoint::E3, CellPoint::C2, CellPoint::C1), tri(CellPoint::E3, CellPoint::C1, CellPoint::E0)]
    } else if mask == 13 {
        seq![tri(CellPoint::C0, CellPoint::C3, CellPoint::C2), tri(CellPoint::C0, CellPoint::C2, CellPoint::E1), tri(CellPoint::C0, CellPoint::E1, CellPoint::E0)]
    } else if mask == 11 {
        seq![tri(CellPoint::C0, CellPoint::C3, CellPoint::E2), tri(CellPoint::C0, CellPoint::E2, CellPoint::E1), tri(CellPoint::C0, CellPoint::E1, CellPoint::C1)]
    } else if mask == 7 {
        seq![tri(CellPoint::C0, CellPoint::E3, CellPoint::E2), tri(CellPoint::C0, CellPoint::E2, CellPoint::C2), tri(CellPoint::C0, CellPoint::C2, CellPoint::C1)]
    } else if mask == 15 {
        seq![tri(CellPoint::C3, CellPoint::C2, CellPoint::C1), tri(CellPoint::C3, CellPoint::C1, CellPoint::C0)]
    } else {
        seq![]
    }
}

/// Whether `p` is a corner whose bit is clear in `mask` (an empty corner).
pub open spec fn empty_corner(mask: u8, p: CellPoint) -> bool {
    match p {
        CellPoint::C0 => mask & 1 == 0,
        CellPoint::C1 => mask & 2 == 0,
        CellPoint::C2 => mask & 4 == 0,
        CellPoint::C3 => mask & 8 == 0,
        _ => false,
    }
}

/// The triangles for a cell with corner mask `mask` (16 cases).
pub fn cell_triangles(mask: u8) -> (t: Vec<CellTriangle>)
    requires
        mask < 16,
    ensures
        t@ == spec_cell_triangles(mask),
        (t@.len() == 0) == (mask == 0),
        forall|k: int| 0 <= k < t@.len() ==> {
            &&& !empty_corner(mask, #[trigger] t@[k].a)
            &&& !empty_corner(mask, t@[k].b)
            &&& !empty_corner(mask, t@[k].c)
        },
{
    let t0 = CellTriangle { a: CellPoint::C0, b: CellPoint::E3, c: CellPoint::E0 };
    let r: Vec<CellTriangle> = if mask == 1 {
        vec![t0]
    } else if mask == 2 {
        vec![CellTriangle { a: CellPoint::C1, b: CellPoint::E0, c: CellPoint::E1 }]
    } else if mask == 4 {
        vec![CellTriangle { a: CellPoint::C2, b: CellPoint::E1, c: CellPoint::E2 }]
    } else if mask == 8 {
        vec![CellTriangle { a: CellPoint::C3, b: CellPoint::E2, c: CellPoint::E3 }]
    } else if mask == 3 {
        vec![
            CellTriangle { a: CellPoint::C0, b: CellPoint::E3, c: CellPoint::E1 },
            CellTriangle { a: CellPoint::C0, b: CellPoint::E1, c: CellPoint::C1 },
        ]
    } else if mask == 6 {
        vec![
            CellTriangle { a: CellPoint::C1, b: CellPoint::E0, c: CellPoint::E2 },
            CellTriangle { a: CellPoint::C1, b: CellPoint::E2, c: CellPoint::C2 },
        ]
    } else if mask == 12 {
        vec![
            CellTriangle { a: CellPoint::C2, b: CellPoint::E1, c: CellPoint::E3 },
            CellTriangle { a: CellPoint::C2, b: CellPoint::E3, c: CellPoint::C3 },
        ]
    } else if mask == 9 {
        vec![
            CellTriangle { a: CellPoint::C0, b: CellPoint::C3, c: CellPoint::E2 },
            CellTriangle { a: CellPoint::C0, b: CellPoint::E2, c: CellPoint::E0 },
        ]
    } else if mask == 5 {
        vec![t0, CellTriangle { a: CellPoint::C2, b: CellPoint::E1, c: CellPoint::E2 }]
    } else if mask == 10 {
        vec![
            CellTriangle { a: CellPoint::C1, b: CellPoint::E0, c: CellPoint::E1 },
            CellTriangle { a: CellPoint::C3, b: CellPoint::E2, c: CellPoint::E3 },
        ]
    } else if mask == 14 {
        vec![
            CellTriangle { a: CellPoint::E3, b: CellPoint::C3, c: CellPoint::C2 },
            CellTriangle { a: CellPoint::E3, b: CellPoint::C2, c: CellPoint::C1 },
            CellTriangle { a: CellPoint::E3, b: CellPoint::C1, c: CellPoint::E0 },
        ]
    } else if mask == 13 {
        vec![
            CellTriangle { a: CellPoint::C0, b: CellPoint::C3, c: CellPoint::C2 },
            CellTriangle { a: CellPoint::C0, b: CellPoint::C2, c: CellPoint::E1 },
            CellTriangle { a: CellPoint::C0, b: CellPoint::E1, c: CellPoint::E0 },
        ]
    } else if mask == 11 {
        vec![
            CellTriangle { a: CellPoint::C0, b: CellPoint::C3, c: CellPoint::E2 },
            CellTriangle { a: CellPoint::C0, b: CellPoint::E2, c: CellPoint::E1 },
            CellTriangle { a: CellPoint::C0, b: CellPoint::E1, c: CellPoint::C1 },
        ]
    } else if mask == 7 {
        vec![
            CellTriangle { a: CellPoint::C0, b: CellPoint::E3, c: CellPoint::E2 },
            CellTriangle { a: CellPoint::C0, b: CellPoint::E2, c: CellPoint::C2 },
            CellTriangle { a: CellPoint::C0, b: CellPoint::C2, c: CellPoint::C1 },
        ]
    } else if mask == 15 {
        vec![
            CellTriangle { a: CellPoint::C3, b: CellPoint::C2, c: CellPoint::C1 },
            CellTriangle { a: CellPoint::C3, b: CellPoint::C1, c: CellPoint::C0 },
        ]
    } else {
        Vec::new()
    };
    proof {
        assert(r@ =~= spec_cell_triangles(mask));
        assert(mask == 0 || mask == 1 || mask == 2 || mask == 3 || mask == 4 || mask == 5 || mask == 6 || mask == 7
            || mask == 8 || mask == 9 || mask == 10 || mask == 11 || mask == 12 || mask == 13 || mask == 14 || mask == 15);
        assert(1u8 & 1 == 1 && 2u8 & 2 == 2) by (bit_vector);
        assert(forall|m: u8| m < 16 ==> (m & 1 == 0 <==> m % 2 == 0)) by (bit_vector);
        assert(forall|m: u8| m < 16 ==> (m & 2 == 0 <==> (m / 2) % 2 == 0)) by (bit_vector);
        assert(forall|m: u8| m < 16 ==> (m & 4 == 0 <==> (m / 4) % 2 == 0)) by (bit_vector);
        assert(forall|m: u8| m < 16 ==> (m & 8 == 0 <==> m < 8)) by (bit_vector);
    }
    r
}

/// Corner mask of a cell: bit k set iff corner k is solid.
pub open spec fn spec_cell_mask(s0: bool, s1: bool, s2: bool, s3: bool) -> u8 {
    ((if s0 { 1int } else { 0 }) + (if s1 { 2int } else { 0 }) + (if s2 { 4int } else { 0 }) + (if s3 { 8int } else { 0 })) as u8
}

pub fn cell_mask(s0: bool, s1: bool, s2: bool, s3: bool) -> (m: u8)
    ensures
        m == spec_cell_mask(s0, s1, s2, s3),
        m < 16,
{
    let mut m: u8 = 0;
    if s0 { m = m + 1; }
    if s1 { m = m + 2; }
    if s2 { m = m + 4; }
    if s3 { m = m + 8; }
    m
}

/// A tile-centre sample: whether it is solid, and its layer when it is an
/// in-grid solid tile. Out-of-grid samples are solid with no known layer.
pub open spec fn spec_sample(grid: Grid, gx: int, gy: int) -> (bool, Option<Layer>) {
    if grid.in_grid(gx, gy) {
        let t = grid.tile_at(gx, gy);
        (t.solid, if t.solid { Some(t.layer) } else { None })
    } else {
        (true, None)
    }
}

pub fn sample(grid: &Grid, gx: i32, gy: i32) -> (s: (bool, Option<Layer>))
    requires
        grid.wf(),
    ensures
        s == spec_sample(*grid, gx as int, gy as int),
{
    match grid.get(gx, gy) {
        Some(t) => (t.solid, if t.solid { Some(t.layer) } else { None }),
        None => (true, None),
    }
}

/// Colour layer of a cell: the first in-grid solid corner's layer in the
/// order c0, c1, c2, c3; bedrock when there is none.
pub open spec fn spec_pick_layer(
    c0: (bool, Option<Layer>),
    c1: (bool, Option<Layer>),
    c2: (bool, Option<Layer>),
    c3: (bool, Option<Layer>),
) -> Layer {
    if c0.0 && c0.1 is Some {
        c0.1->0
    } else if c1.0 && c1.1 is Some {
        c1.1->0
    } else if c2.0 && c2.1 is Some {
        c2.1->0
    } else if c3.0 && c3.1 is Some {
        c3.1->0
    } else {
        Layer::Bedrock
    }
}

pub fn pick_layer(
    c0: (bool, Option<Layer>),
    c1: (bool, Option<Layer>),
    c2: (bool, Option<Layer>),
    c3: (bool, Option<Layer>),
) -> (l: Layer)
    ensures
        l == spec_pick_layer(c0, c1, c2, c3),
{
    let cands = [c0, c1, c2, c3];
    let mut k: usize = 0;
    while k < 4
        invariant
            0 <= k <= 4,
            cands@ == seq![c0, c1, c2, c3],
            forall|j: int| 0 <= j < k ==> !(#[trigger] cands@[j].0 && cands@[j].1 is Some),
        decreases 4 - k,
    {
        let (s, ly) = cands[k];
        if s {
            if let Some(l) = ly {
                return l;
            }
        }
        k = k + 1;
    }
    Layer::Bedrock
}

/// One marching-squares cell of a chunk: the grid coordinates of its top-left
/// corner sample, its corner mask and its colour layer.
#[derive(Clone, Copy, Debug, PartialEq, Eq, Structural)]
pub struct CellSample {
    pub gx: i32,
    pub gy: i32,
    pub mask: u8,
    pub layer: Layer,
}

/// The cell whose top-left sample is (gx, gy).
pub open spec fn spec_cell(grid: Grid, gx: int, gy: int) -> CellSample {
    let c0 = spec_sample(grid, gx, gy);
    let c1 = spec_sample(grid, gx + 1, gy);
    let c2 = spec_sample(grid, gx + 1, gy + 1);
    let c3 = spec_sample(grid, gx, gy + 1);
    CellSample {
        gx: gx as i32,
        gy: gy as i32,
        mask: spec_cell_mask(c0.0, c1.0, c2.0, c3.0),
        layer: spec_pick_layer(c0, c1, c2, c3),
    }
}

/// The chunk's cells stay within `i32` sample coordinates.
pub open spec fn chunk_in_range(chunk: IVec2) -> bool {
    &&& i32::MIN <= chunk.x * CHUNK_TILES
    &&& chunk.x * CHUNK_TILES + CHUNK_TILES <= i32::MAX
    &&& i32::MIN <= chunk.y * CHUNK_TILES
    &&& chunk.y * CHUNK_TILES + CHUNK_TILES <= i32::MAX
}

/// Every cell of the chunk at `chunk`, row by row: cell (i, j) sits at
/// `j * CHUNK_TILES + i` and has its top-left sample at
/// (chunk.x * CHUNK_TILES + i, chunk.y * CHUNK_TILES + j).
pub fn chunk_cells(grid: &Grid, chunk: IVec2) -> (cells: Vec<CellSample>)
    requires
        grid.wf(),
        chunk_in_range(chunk),
    ensures
        cells@.len() == CHUNK_TILES * CHUNK_TILES,
        forall|i: int, j: int| 0 <= i < CHUNK_TILES && 0 <= j < CHUNK_TILES ==> #[trigger] cells@[j * CHUNK_TILES + i]
            == spec_cell(*grid, chunk.x * CHUNK_TILES + i, chunk.y * CHUNK_TILES + j),
{
    let n = CHUNK_TILES;
    let bx = chunk.x * n;
    let by = chunk.y * n;
    let mut cells: Vec<CellSample> = Vec::new();
    let mut j: i32 = 0;
    while j < n
        invariant
            0 <= j <= n,
            n == CHUNK_TILES,
            grid.wf(),
            bx == chunk.x * CHUNK_TILES,
            by == chunk.y * CHUNK_TILES,
            chunk_in_range(chunk),
            cells@.len() == j * n,
            forall|i2: int, j2: int| 0 <= i2 < n && 0 <= j2 < j ==> #[trigger] cells@[j2 * n + i2] == spec_cell(*grid, bx + i2, by + j2),
        decreases n - j,
    {
        let mut i: i32 = 0;
        while i < n
            invariant
                0 <= i <= n,
                0 <= j < n,
                n == CHUNK_TILES,
                grid.wf(),
                bx == chunk.x * CHUNK_TILES,
                by == chunk.y * CHUNK_TILES,
                chunk_in_range(chunk),
                cells@.len() == j * n + i,
                forall|i2: int, j2: int| 0 <= i2 < n && 0 <= j2 < j ==> #[trigger] cells@[j2 * n + i2] == spec_cell(*grid, bx + i2, by + j2),
                forall|i2: int| 0 <= i2 < i ==> #[trigger] cells@[j * n + i2] == spec_cell(*grid, bx + i2, by + j),
            decreases n - i,
        {
            let gx = bx + i;
            let gy = by + j;
            let c0 = sample(grid, gx, gy);
            let c1 = sample(grid, gx + 1, gy);
            let c2 = sample(grid, gx + 1, gy + 1);
            let c3 = sample(grid, gx, gy + 1);
            let mask = cell_mask(c0.0, c1.0, c2.0, c3.0);
            let layer = pick_layer(c0, c1, c2, c3);
            let ghost before = cells@;
            cells.push(CellSample { gx, gy, mask, layer });
            proof {
                assert forall|i2: int, j2: int| 0 <= i2 < n && 0 <= j2 < j implies #[trigger] cells@[j2 * n + i2] == spec_cell(*grid, bx + i2, by + j2) by {
                    assert(j2 * n + i2 < j * n) by (nonlinear_arith)
                        requires 0 <= i2 < n, 0 <= j2 < j, n == 16;
                    assert(cells@[j2 * n + i2] == before[j2 * n + i2]);
                }
                assert forall|i2: int| 0 <= i2 < i + 1 implies #[trigger] cells@[j * n + i2] == spec_cell(*grid, bx + i2, by + j) by {
                    if i2 < i {
                        assert(cells@[j * n + i2] == before[j * n + i2]);
                    }
                }
            }
            i = i + 1;
        }
        proof {
            assert forall|i2: int, j2: int| 0 <= i2 < n && 0 <= j2 < j + 1 implies #[trigger] cells@[j2 * n + i2] == spec_cell(*grid, bx + i2, by + j2) by {
                if j2 == j {
                    assert(cells@[j * n + i2] == spec_cell(*grid, bx + i2, by + j));
                }
            }
            assert((j + 1) * n == j * n + n) by (nonlinear_arith);
        }
        j = j + 1;
    }
    cells
}

/// Every triangle of `cells`, cell by cell in order, each paired with its
/// cell.
pub open spec fn triangle_list(cells: Seq<CellSample>) -> Seq<(CellSample, CellTriangle)>
    decreases cells.len(),
{
    if cells.len() == 0 {
        Seq::empty()
    } else {
        let c = cells.last();
        triangle_list(cells.drop_last()) + spec_cell_triangles(c.mask).map_values(|t: CellTriangle| (c, t))
    }
}

/// The triangles of a chunk's mesh, cell by cell; the chunk has no mesh when
/// the list is empty.
pub fn chunk_triangle_list(cells: &[CellSample]) -> (out: Vec<(CellSample, CellTriangle)>)
    requires
        forall|k: int| 0 <= k < cells@.len() ==> (#[trigger] cells@[k]).mask < 16,
    ensures
        out@ == triangle_list(cells@),
{
    let mut out: Vec<(CellSample, CellTriangle)> = Vec::new();
    let mut i: usize = 0;
    while i < cells.len()
        invariant
            0 <= i <= cells@.len(),
            forall|k: int| 0 <= k < cells@.len() ==> (#[trigger] cells@[k]).mask < 16,
            out@ == triangle_list(cells@.take(i as int)),
        decreases cells@.len() - i,
    {
        let c = cells[i];
        let tris = cell_triangles(c.mask);
        let ghost base = out@;
        let mut j: usize = 0;
        while j < tris.len()
            invariant
                0 <= j <= tris@.len(),
                out@ == base + tris@.take(j as int).map_values(|t: CellTriangle| (c, t)),
            decreases tris@.len() - j,
        {
            out.push((c, tris[j]));
            proof {
                assert(tris@.take(j as int + 1).map_values(|t: CellTriangle| (c, t))
                    =~= tris@.take(j as int).map_values(|t: CellTriangle| (c, t)).push((c, tris@[j as int])));
            }
            j = j + 1;
        }
        proof {
            assert(tris@.take(j as int) =~= tris@);
            let next = cells@.take(i as int + 1);
            assert(next.drop_last() =~= cells@.take(i as int));
            assert(next.last() == c);
        }
        i = i + 1;
    }
    proof {
        assert(cells@.take(i as int) =~= cells@);
    }
    out
}

/// A chunk has no mesh exactly when none of its cells has a solid corner.
pub proof fn law_empty_mesh_iff_no_solid_corner(cells: Seq<CellSample>)
    requires
        forall|k: int| 0 <= k < cells.len() ==> (#[trigger] cells[k]).mask < 16,
    ensures
        triangle_list(cells).len() == 0 <==> forall|k: int| 0 <= k < cells.len() ==> (#[trigger] cells[k]).mask == 0,
    decreases cells.len(),
{
    if cells.len() > 0 {
        let init = cells.drop_last();
        assert forall|k: int| 0 <= k < init.len() implies (#[trigger] init[k]).mask < 16 by {
            assert(init[k] == cells[k]);
        }
        law_empty_mesh_iff_no_solid_corner(init);
        let m = cells.last().mask;
        assert(cells[cells.len() - 1].mask < 16);
        assert(m == 0 || m == 1 || m == 2 || m == 3 || m == 4 || m == 5 || m == 6 || m == 7
            || m == 8 || m == 9 || m == 10 || m == 11 || m == 12 || m == 13 || m == 14 || m == 15);
        assert((spec_cell_triangles(m).len() == 0) == (m == 0));
        if forall|k: int| 0 <= k < cells.len() ==> (#[trigger] cells[k]).mask == 0 {
            assert forall|k: int| 0 <= k < init.len() implies (#[trigger] init[k]).mask == 0 by {
                assert(init[k] == cells[k]);
            }
            assert(cells[cells.len() - 1].mask == 0);
        }
        if triangle_list(cells).len() == 0 {
            assert forall|k: int| 0 <= k < cells.len() implies (#[trigger] cells[k]).mask == 0 by {
                if k < cells.len() - 1 {
                    assert(init[k] == cells[k]);
                }
            }
        }
    }
}

/// Position of a cell point in half-tile units, `x` to the right and `y`
/// down: the cell spans [0, 2] x [0, 2] with corner c0 at the origin.
pub open spec fn point_xy(p: CellPoint) -> (int, int) {
    match p {
        CellPoint::C0 => (0, 0),
        CellPoint::C1 => (2, 0),
        CellPoint::C2 => (2, 2),
        CellPoint::C3 => (0, 2),
        CellPoint::E0 => (1, 0),
        CellPoint::E1 => (2, 1),
        CellPoint::E2 => (1, 2),
        CellPoint::E3 => (0, 1),
    }
}

/// Twice the signed area of a triangle, positive when it winds
/// counter-clockwise in world space (y up).
pub open spec fn tri_area2(t: CellTriangle) -> int {
    let (ax, ay) = point_xy(t.a);
    let (bx, by) = point_xy(t.b);
    let (cx, cy) = point_xy(t.c);
    -((bx - ax) * (cy - ay) - (by - ay) * (cx - ax))
}

/// Twice the total signed area of a list of triangles.
pub open spec fn total_area2(s: Seq<CellTriangle>) -> int
    decreases s.len(),
{
    if s.len() == 0 {
        0
    } else {
        total_area2(s.drop_last()) + tri_area2(s.last())
    }
}

/// Whether corner `k` (0 to 3) of a cell with corner mask `mask` is solid.
pub open spec fn corner_solid(mask: u8, k: int) -> bool {
    if k == 0 {
        mask as int % 2 == 1
    } else if k == 1 {
        (mask as int / 2) % 2 == 1
    } else if k == 2 {
        (mask as int / 4) % 2 == 1
    } else {
        (mask as int / 8) % 2 == 1
    }
}

pub open spec fn solid_count(mask: u8) -> int {
    (if corner_solid(mask, 0) { 1int } else { 0 }) + (if corner_solid(mask, 1) { 1int } else { 0 })
        + (if corner_solid(mask, 2) { 1int } else { 0 }) + (if corner_solid(mask, 3) { 1int } else { 0 })
}

/// Twice the area, in half-tile units (a whole cell is 4), of a cell's solid
/// part as cut along its edge midpoints: a lone solid corner owns the
/// triangle up to the midpoints of its two edges (area 1/2), two solid
/// neighbours along an edge own that half of the cell (2), two solid
/// opposite corners own their two corner triangles (1), three solid corners
/// own all but the empty corner's triangle (7/2), and four own the cell (4).
pub open spec fn solid_area2(mask: u8) -> int {
    let n = solid_count(mask);
    if n == 4 {
        8
    } else if n == 3 {
        7
    } else if n == 2 {
        if (corner_solid(mask, 0) && corner_solid(mask, 2)) || (corner_solid(mask, 1) && corner_solid(mask, 3)) {
            2
        } else {
            4
        }
    } else {
        n
    }
}

/// The triangles of a cell cover its solid part: each winds counter-clockwise
/// with positive area, none has a vertex on an empty corner, and their areas
/// add up to exactly the area of the solid part, so nothing of it is left
/// uncovered.
pub proof fn law_cell_triangles_cover_solid_part(mask: u8)
    requires
        mask < 16,
    ensures
        forall|k: int| 0 <= k < spec_cell_triangles(mask).len() ==> tri_area2(#[trigger] spec_cell_triangles(mask)[k]) > 0,
        forall|k: int| 0 <= k < spec_cell_triangles(mask).len() ==> {
            let t = #[trigger] spec_cell_triangles(mask)[k];
            &&& !empty_corner(mask, t.a)
            &&& !empty_corner(mask, t.b)
            &&& !empty_corner(mask, t.c)
        },
        total_area2(spec_cell_triangles(mask)) == solid_area2(mask),
{
    assert(forall|m: u8| m < 16 ==> (m & 1 == 0 <==> m % 2 == 0)) by (bit_vector);
    assert(forall|m: u8| m < 16 ==> (m & 2 == 0 <==> (m / 2) % 2 == 0)) by (bit_vector);
    assert(forall|m: u8| m < 16 ==> (m & 4 == 0 <==> (m / 4) % 2 == 0)) by (bit_vector);
    assert(forall|m: u8| m < 16 ==> (m & 8 == 0 <==> m < 8)) by (bit_vector);
    let s = spec_cell_triangles(mask);
    assert(s.len() <= 3);
    lemma_total_area2_small(s);
    if mask == 1 {
        assert(s =~= seq![tri(CellPoint::C0, CellPoint::E3, CellPoint::E0)]);
        assert(tri_area2(tri(CellPoint::C0, CellPoint::E3, CellPoint::E0)) == 1) by (nonlinear_arith);
    }
    if mask == 2 {
        assert(s =~= seq![tri(CellPoint::C1, CellPoint::E0, CellPoint::E1)]);
        assert(tri_area2(tri(CellPoint::C1, CellPoint::E0, CellPoint::E1)) == 1) by (nonlinear_arith);
    }
    if mask == 4 {
        assert(s =~= seq![tri(CellPoint::C2, CellPoint::E1, CellPoint::E2)]);
        assert(tri_area2(tri(CellPoint::C2, CellPoint::E1, CellPoint::E2)) == 1) by (nonlinear_arith);
    }
    if mask == 8 {
        assert(s =~= seq![tri(CellPoint::C3, CellPoint::E2, CellPoint::E3)]);
        assert(tri_area2(tri(CellPoint::C3, CellPoint::E2, CellPoint::E3)) == 1) by (nonlinear_arith);
    }
    if mask == 3 {
        assert(s =~= seq![tri(CellPoint::C0, CellPoint::E3, CellPoint::E1), tri(CellPoint::C0, CellPoint::E1, CellPoint::C1)]);
        assert(tri_area2(tri(CellPoint::C0, CellPoint::E3, CellPoint::E1)) == 2) by (nonlinear_arith);
        assert(tri_area2(tri(CellPoint::C0, CellPoint::E1, CellPoint::C1)) == 2) by (nonlinear_arith);
    }
    if mask == 6 {
        assert(s =~= seq![tri(CellPoint::C1, CellPoint::E0, CellPoint::E2), tri(CellPoint::C1, CellPoint::E2, CellPoint::C2)]);
        assert(tri_area2(tri(CellPoint::C1, CellPoint::E0, CellPoint::E2)) == 2) by (nonlinear_arith);
        assert(tri_area2(tri(CellPoint::C1, CellPoint::E2, CellPoint::C2)) == 2) by (nonlinear_arith);
    }
    if mask == 12 {
        assert(s =~= seq![tri(CellPoint::C2, CellPoint::E1, CellPoint::E3), tri(CellPoint::C2, CellPoint::E3, CellPoint::C3)]);
        assert(tri_area2(tri(CellPoint::C2, CellPoint::E1, CellPoint::E3)) == 2) by (nonlinear_arith);
        assert(tri_area2(tri(CellPoint::C2, CellPoint::E3, CellPoint::C3)) == 2) by (nonlinear_arith);
    }
    if mask == 9 {
        assert(s =~= seq![tri(CellPoint::C0, CellPoint::C3, CellPoint::E2), tri(CellPoint::C0, CellPoint::E2, CellPoint::E0)]);
        assert(tri_area2(tri(CellPoint::C0, CellPoint::C3, CellPoint::E2)) == 2) by (nonlinear_arith);
        assert(tri_area2(tri(CellPoint::C0, CellPoint::E2, CellPoint::E0)) == 2) by (nonlinear_arith);
    }
    if mask == 5 {
        assert(s =~= seq![tri(CellPoint::C0, CellPoint::E3, CellPoint::E0), tri(CellPoint::C2, CellPoint::E1, CellPoint::E2)]);
        assert(tri_area2(tri(CellPoint::C0, CellPoint::E3, CellPoint::E0)) == 1) by (nonlinear_arith);
        assert(tri_area2(tri(CellPoint::C2, CellPoint::E1, CellPoint::E2)) == 1) by (nonlinear_arith);
    }
    if mask == 10 {
        assert(s =~= seq![tri(CellPoint::C1, CellPoint::E0, CellPoint::E1), tri(CellPoint::C3, CellPoint::E2, CellPoint::E3)]);
        assert(tri_area2(tri(CellPoint::C1, CellPoint::E0, CellPoint::E1)) == 1) by (nonlinear_arith);
        assert(tri_area2(tri(CellPoint::C3, CellPoint::E2, CellPoint::E3)) == 1) by (nonlinear_arith);
    }
    if mask == 14 {
        assert(s =~= seq![tri(CellPoint::E3, CellPoint::C3, CellPoint::C2), tri(CellPoint::E3, CellPoint::C2, CellPoint::C1), tri(CellPoint::E3, CellPoint::C1, CellPoint::E0)]);
        assert(tri_area2(tri(CellPoint::E3, CellPoint::C3, CellPoint::C2)) == 2) by (nonlinear_arith);
        assert(tri_area2(tri(CellPoint::E3, CellPoint::C2, CellPoint::C1)) == 4) by (nonlinear_arith);
        assert(tri_area2(tri(CellPoint::E3, CellPoint::C1, CellPoint::E0)) == 1) by (nonlinear_arith);
    }
    if mask == 13 {
        assert(s =~= seq![tri(CellPoint::C0, CellPoint::C3, CellPoint::C2), tri(CellPoint::C0, CellPoint::C2, CellPoint::E1), tri(CellPoint::C0, CellPoint::E1, CellPoint::E0)]);
        assert(tri_area2(tri(CellPoint::C0, CellPoint::C3, CellPoint::C2)) == 4) by (nonlinear_arith);
        assert(tri_area2(tri(CellPoint::C0, CellPoint::C2, CellPoint::E1)) == 2) by (nonlinear_arith);
        assert(tri_area2(tri(CellPoint::C0, CellPoint::E1, CellPoint::E0)) == 1) by (nonlinear_arith);
    }
    if mask == 11 {
        assert(s =~= seq![tri(CellPoint::C0, CellPoint::C3, CellPoint::E2), tri(CellPoint::C0, CellPoint::E2, CellPoint::E1), tri(CellPoint::C0, CellPoint::E1, CellPoint::C1)]);
        assert(tri_area2(tri(CellPoint::C0, CellPoint::C3, CellPoint::E2)) == 2) by (nonlinear_arith);
        assert(tri_area2(tri(CellPoint::C0, CellPoint::E2, CellPoint::E1)) == 3) by (nonlinear_arith);
        assert(tri_area2(tri(CellPoint::C0, CellPoint::E1, CellPoint::C1)) == 2) by (nonlinear_arith);
    }
    if mask == 7 {
        assert(s =~= seq![tri(CellPoint::C0, CellPoint::E3, CellPoint::E2), tri(CellPoint::C0, CellPoint::E2, CellPoint::C2), tri(CellPoint::C0, CellPoint::C2, CellPoint::C1)]);
        assert(tri_area2(tri(CellPoint::C0, CellPoint::E3, CellPoint::E2)) == 1) by (nonlinear_arith);
        assert(tri_area2(tri(CellPoint::C0, CellPoint::E2, CellPoint::C2)) == 2) by (nonlinear_arith);
        assert(tri_area2(tri(CellPoint::C0, CellPoint::C2, CellPoint::C1)) == 4) by (nonlinear_arith);
    }
    if mask == 15 {
        assert(s =~= seq![tri(CellPoint::C3, CellPoint::C2, CellPoint::C1), tri(CellPoint::C3, CellPoint::C1, CellPoint::C0)]);
        assert(tri_area2(tri(CellPoint::C3, CellPoint::C2, CellPoint::C1)) == 4) by (nonlinear_arith);
        assert(tri_area2(tri(CellPoint::C3, CellPoint::C1, CellPoint::C0)) == 4) by (nonlinear_arith);
    }
    if mask == 0 {
        assert(s =~= Seq::<CellTriangle>::empty());
    }
}

/// The total area of at most three triangles, written out.
proof fn lemma_total_area2_small(s: Seq<CellTriangle>)
    requires
        s.len() <= 3,
    ensures
        total_area2(s) == (if s.len() >= 1 { tri_area2(s[0]) } else { 0 })
            + (if s.len() >= 2 { tri_area2(s[1]) } else { 0 })
            + (if s.len() >= 3 { tri_area2(s[2]) } else { 0 }),
{
    reveal_with_fuel(total_area2, 4);
    if s.len() >= 1 {
        let s1 = s.drop_last();
        if s.len() >= 2 {
            let s2 = s1.drop_last();
            assert(s1.last() == s[s.len() - 2]);
            if s.len() == 3 {
                assert(s2.last() == s[0]);
                assert(s2.drop_last().len() == 0);
            } else {
                assert(s2.len() == 0);
            }
        } else {
            assert(s1.len() == 0);
        }
    }
}

/// Bit k of a cell's mask tells exactly whether corner k is solid.
pub proof fn law_cell_mask_bits_are_corners(s0: bool, s1: bool, s2: bool, s3: bool)
    ensures
        spec_cell_mask(s0, s1, s2, s3) < 16,
        corner_solid(spec_cell_mask(s0, s1, s2, s3), 0) == s0,
        corner_solid(spec_cell_mask(s0, s1, s2, s3), 1) == s1,
        corner_solid(spec_cell_mask(s0, s1, s2, s3), 2) == s2,
        corner_solid(spec_cell_mask(s0, s1, s2, s3), 3) == s3,
{
}

} // verus!
