//! Terrain chunks: which chunk a tile belongs to, and which chunks around
//! the camera must exist.

use vstd::prelude::*;
use crate::coords::IVec2;

verus! {

/// Tiles along one side of a terrain chunk.
pub const CHUNK_TILES: i32 = 16;

/// Extra ring of chunks kept around the visible area.
pub const CHUNK_MARGIN: i32 = 1;

/// The chunk holding the tile at `tile` (floor division by `CHUNK_TILES`).
pub open spec fn spec_chunk_of_tile(tile: IVec2) -> IVec2 {
    IVec2 { x: (tile.x as int / CHUNK_TILES as int) as i32, y: (tile.y as int / CHUNK_TILES as int) as i32 }
}

fn div_floor_16(v: i32) -> (q: i32)
    ensures
        q == v as int / 16,
{
    if v >= 0 {
        v / 16
    } else {
        let q = -((-(v + 1)) / 16) - 1;
        q
    }
}

pub fn chunk_of_tile(tile: IVec2) -> (c: IVec2)
    ensures
        c == spec_chunk_of_tile(tile),
        c.x * CHUNK_TILES <= tile.x < c.x * CHUNK_TILES + CHUNK_TILES,
        c.y * CHUNK_TILES <= tile.y < c.y * CHUNK_TILES + CHUNK_TILES,
{
    IVec2::new(div_floor_16(tile.x), div_floor_16(tile.y))
}

/// The chunk overlaps the grid's tiles.
pub open spec fn chunk_overlaps_grid(c: IVec2, w: int, h: int) -> bool {
    &&& c.x * CHUNK_TILES < w
    &&& c.y * CHUNK_TILES < h
    &&& (c.x + 1) * CHUNK_TILES > 0
    &&& (c.y + 1) * CHUNK_TILES > 0
}

/// `c` lies in the box spanned by `a` and `b`, widened by `CHUNK_MARGIN`.
pub open spec fn in_margin_box(c: IVec2, a: IVec2, b: IVec2) -> bool {
    let min_x = if a.x <= b.x { a.x } else { b.x };
    let max_x = if a.x <= b.x { b.x } else { a.x };
    let min_y = if a.y <= b.y { a.y } else { b.y };
    let max_y = if a.y <= b.y { b.y } else { a.y };
    &&& min_x - CHUNK_MARGIN <= c.x <= max_x + CHUNK_MARGIN
    &&& min_y - CHUNK_MARGIN <= c.y <= max_y + CHUNK_MARGIN
}

/// The chunks that must exist when the view's corners fall in chunks `a`
/// and `b`: every chunk of the box they span, widened by `CHUNK_MARGIN`,
/// that overlaps a `grid_w` x `grid_h` grid. Each occurs once.
pub fn wanted_chunks(a: IVec2, b: IVec2, grid_w: u32, grid_h: u32) -> (want: Vec<IVec2>)
    requires
        i32::MIN + CHUNK_MARGIN <= a.x <= i32::MAX - CHUNK_MARGIN,
        i32::MIN + CHUNK_MARGIN <= a.y <= i32::MAX - CHUNK_MARGIN,
        i32::MIN + CHUNK_MARGIN <= b.x <= i32::MAX - CHUNK_MARGIN,
        i32::MIN + CHUNK_MARGIN <= b.y <= i32::MAX - CHUNK_MARGIN,
    ensures
        want@.no_duplicates(),
        forall|c: IVec2| #[trigger] want@.contains(c) <==> in_margin_box(c, a, b) && chunk_overlaps_grid(c, grid_w as int, grid_h as int),
{
    let min_x = if a.x <= b.x { a.x } else { b.x } - CHUNK_MARGIN;
    let max_x = if a.x <= b.x { b.x } else { a.x } + CHUNK_MARGIN;
    let min_y = if a.y <= b.y { a.y } else { b.y } - CHUNK_MARGIN;
    let max_y = if a.y <= b.y { b.y } else { a.y } + CHUNK_MARGIN;
    let mut want: Vec<IVec2> = Vec::new();
    let mut cy: i64 = min_y as i64;
    while cy <= max_y as i64
        invariant
            min_y as i64 <= cy <= max_y as i64 + 1,
            forall|k: int| 0 <= k < want@.len() ==> (#[trigger] want@[k]).y < cy,
            min_x == (if a.x <= b.x { a.x } else { b.x }) - CHUNK_MARGIN,
            max_x == (if a.x <= b.x { b.x } else { a.x }) + CHUNK_MARGIN,
            min_y == (if a.y <= b.y { a.y } else { b.y }) - CHUNK_MARGIN,
            max_y == (if a.y <= b.y { b.y } else { a.y }) + CHUNK_MARGIN,
            forall|i: int, j: int| 0 <= i < j < want@.len() ==> key_before(#[trigger] want@[i], #[trigger] want@[j]),
            forall|c: IVec2| #[trigger] want@.contains(c) <==> in_margin_box(c, a, b) && chunk_overlaps_grid(c, grid_w as int, grid_h as int) && c.y < cy,
        decreases max_y as i64 + 1 - cy,
    {
        let mut cx: i64 = min_x as i64;
        while cx <= max_x as i64
            invariant
                min_x as i64 <= cx <= max_x as i64 + 1,
                min_y as i64 <= cy <= max_y as i64,
                min_x == (if a.x <= b.x { a.x } else { b.x }) - CHUNK_MARGIN,
                max_x == (if a.x <= b.x { b.x } else { a.x }) + CHUNK_MARGIN,
                min_y == (if a.y <= b.y { a.y } else { b.y }) - CHUNK_MARGIN,
                max_y == (if a.y <= b.y { b.y } else { a.y }) + CHUNK_MARGIN,
                forall|i: int, j: int| 0 <= i < j < want@.len() ==> key_before(#[trigger] want@[i], #[trigger] want@[j]),
                forall|k: int| 0 <= k < want@.len() ==> (#[trigger] want@[k]).y < cy || (want@[k].y == cy && want@[k].x < cx),
                forall|c: IVec2| #[trigger] want@.contains(c) <==> in_margin_box(c, a, b) && chunk_overlaps_grid(c, grid_w as int, grid_h as int)
                    && (c.y < cy || (c.y == cy && c.x < cx)),
            decreases max_x as i64 + 1 - cx,
        {
            let x = cx as i32;
            let y = cy as i32;
            let skip = cx * 16 >= grid_w as i64 || cy * 16 >= grid_h as i64 || (cx + 1) * 16 <= 0 || (cy + 1) * 16 <= 0;
            let ghost before = want@;
            if !skip {
                want.push(IVec2::new(x, y));
            }
            proof {
                assert forall|k: int| 0 <= k < want@.len() implies (#[trigger] want@[k]).y < cy || (want@[k].y == cy && want@[k].x < cx + 1) by {
                    if k < before.len() {
                        assert(want@[k] == before[k]);
                    }
                }
                assert forall|i: int, j: int| 0 <= i < j < want@.len() implies key_before(#[trigger] want@[i], #[trigger] want@[j]) by {
                    if j < before.len() {
                        assert(want@[i] == before[i] && want@[j] == before[j]);
                    } else {
                        assert(want@[i] == before[i]);
                    }
                }
                assert forall|c: IVec2| #[trigger] want@.contains(c) <==> in_margin_box(c, a, b) && chunk_overlaps_grid(c, grid_w as int, grid_h as int)
                    && (c.y < cy || (c.y == cy && c.x < cx + 1)) by {
                    if want@.contains(c) && !before.contains(c) {
                        assert(c == IVec2 { x: x, y: y });
                    }
                    if before.contains(c) {
                        let k = choose|k: int| 0 <= k < before.len() && before[k] == c;
                        assert(want@[k] == c);
                    }
                    if c == (IVec2 { x: x, y: y }) && !skip {
                        assert(want@[want@.len() - 1] == c);
                    }
                }
            }
            cx = cx + 1;
        }
        proof {
            assert forall|k: int| 0 <= k < want@.len() implies (#[trigger] want@[k]).y < cy + 1 by {
            }
        }
        cy = cy + 1;
    }
    proof {
        assert forall|i: int, j: int| 0 <= i < want@.len() && 0 <= j < want@.len() && i != j implies want@[i] != want@[j] by {
            if i < j {
                assert(key_before(want@[i], want@[j]));
            } else {
                assert(key_before(want@[j], want@[i]));
            }
        }
    }
    want
}

/// Row-major order on chunk coordinates: by `y`, then by `x`.
pub open spec fn key_before(p: IVec2, q: IVec2) -> bool {
    p.y < q.y || (p.y == q.y && p.x < q.x)
}

} // verus!
