use rand::rngs::StdRng;
use rand::distributions::Standard;
use rand::{Rng, SeedableRng};
use vstd::prelude::*;
use crate::grid::{Grid, Layer, Tile, lemma_tile_at_update};
use crate::items::OreKind;
use crate::coords::IVec2;
use vstd::arithmetic::div_mod::{lemma_div_denominator, lemma_fundamental_div_mod};

verus! {

/// The `k`-th value that `rand`'s `StdRng`, created by
/// `SeedableRng::seed_from_u64(seed)`, yields from `RngCore::next_u32`.
pub uninterp spec fn seeded_roll(seed: u64, k: nat) -> u32;

/// Draws `count` values from `StdRng::seed_from_u64(seed)` with `rand`'s
/// `Standard` distribution for `u32`, which is `RngCore::next_u32`. The
/// contract claims that the `k`-th value is `seeded_roll(seed, k)`: the
/// generator is seeded from `seed` alone and is deterministic, and `rand_core`
/// counts any change of `seed_from_u64`'s output as value-breaking. Nothing
/// else is stated of the values.
#[verifier::external_body]
fn seeded_rolls(seed: u64, count: usize) -> (v: Vec<u32>)
    ensures
        v@.len() == count,
        forall|k: int| 0 <= k < count ==> #[trigger] v@[k] == seeded_roll(seed, k as nat),
{
    StdRng::seed_from_u64(seed).sample_iter(Standard).take(count).collect()
}


/// Rows 1..=3 below the top edge are open sky/walkable surface.
pub const SURFACE_ROWS: i32 = 3;

/// Rows inside the ring of bedrock and below the surface.
pub open spec fn interior_height(h: int) -> int {
    h - 2 - SURFACE_ROWS
}

/// The scale at which `a` keeps 24 significant bits: the least power of two
/// `p` with `a / p < 2^24`.
pub open spec fn sig24_scale(a: nat) -> nat
    decreases a,
{
    if a < 0x1000000 {
        1
    } else {
        2 * sig24_scale(a / 2)
    }
}

/// `a` rounded as an `f32` rounds it: to 24 significant bits, to nearest,
/// ties to an even last bit. The result `(m, p)` stands for `m * p`.
pub open spec fn f32_round(a: nat) -> (nat, nat) {
    let p = sig24_scale(a);
    let q = a / p;
    let r = a % p;
    let up = 2 * r > p || (2 * r == p && q % 2 == 1);
    (if up { q + 1 } else { q }, p)
}

/// `(n as f32 * c) as i32` for `n >= 0` and an `f32` constant `c` equal to
/// `c_m / 2^25`: `n` is rounded to an `f32`, the product is rounded again,
/// and the result is cut toward zero.
pub open spec fn f32_scaled_trunc(n: nat, c_m: nat) -> nat {
    let (m1, p1) = f32_round(n);
    let (m2, p2) = f32_round(m1 * c_m);
    (m2 * p2 * p1) / 0x2000000
}

/// `(n as f32 * c) as i32` for any `n`; rounding and truncation are
/// symmetric about zero.
pub open spec fn f32_band(n: int, c_m: nat) -> int {
    if n >= 0 {
        f32_scaled_trunc(n as nat, c_m) as int
    } else {
        -(f32_scaled_trunc((-n) as nat, c_m) as int)
    }
}

/// The `f32` values nearest 0.30, 0.40 and 0.27 (the dirt, stone and deep
/// shares of the interior), each as a multiple of 2^-25.
pub const DIRT_FRAC_M: u64 = 10066330;
pub const STONE_FRAC_M: u64 = 13421773;
pub const DEEP_FRAC_M: u64 = 9059697;

/// First row below the dirt band (30% of the interior).
pub open spec fn dirt_end(h: int) -> int {
    1 + SURFACE_ROWS + f32_band(interior_height(h), DIRT_FRAC_M as nat)
}

/// First row below the stone band (next 40% of the interior).
pub open spec fn stone_end(h: int) -> int {
    dirt_end(h) + f32_band(interior_height(h), STONE_FRAC_M as nat)
}

/// First row below the deep band (next 27% of the interior); the core fills
/// the rest.
pub open spec fn deep_end(h: int) -> int {
    stone_end(h) + f32_band(interior_height(h), DEEP_FRAC_M as nat)
}

pub open spec fn on_border(w: int, h: int, x: int, y: int) -> bool {
    x == 0 || y == 0 || x == w - 1 || y == h - 1
}

/// Layer of the generated tile at (x, y).
pub open spec fn terrain_layer(w: int, h: int, x: int, y: int) -> Layer {
    if on_border(w, h, x, y) {
        Layer::Bedrock
    } else if y <= SURFACE_ROWS {
        Layer::Dirt
    } else if y < dirt_end(h) {
        Layer::Dirt
    } else if y < stone_end(h) {
        Layer::Stone
    } else if y < deep_end(h) {
        Layer::Deep
    } else {
        Layer::Core
    }
}

/// Only the surface strip starts empty.
pub open spec fn terrain_solid(w: int, h: int, x: int, y: int) -> bool {
    on_border(w, h, x, y) || y > SURFACE_ROWS
}

/// Tiles of the dirt, stone and deep bands draw one random roll for ore.
pub open spec fn terrain_rolls(w: int, h: int, x: int, y: int) -> bool {
    !on_border(w, h, x, y) && y > SURFACE_ROWS && y < deep_end(h)
}

/// Ore chosen by a uniformly random `u32` roll for a tile of `layer`. The
/// thresholds are the cumulative ore probabilities of the layer scaled to
/// 2^32 (dirt: copper 4%, silver 0.5%; stone: copper 2%, silver 2.5%, gold
/// 0.3%; deep: copper 0.5%, silver 1.5%, gold 2%); core and bedrock hold no
/// ore.
pub open spec fn spec_roll_ore(layer: Layer, roll: u32) -> Option<OreKind> {
    match layer {
        Layer::Dirt => if roll < 171798784 {
            Some(OreKind::Copper)
        } else if roll < 193273600 {
            Some(OreKind::Silver)
        } else {
            None
        },
        Layer::Stone => if roll < 85899520 {
            Some(OreKind::Copper)
        } else if roll < 193273600 {
            Some(OreKind::Silver)
        } else if roll < 206158592 {
            Some(OreKind::Gold)
        } else {
            None
        },
        Layer::Deep => if roll < 21475072 {
            Some(OreKind::Copper)
        } else if roll < 85899520 {
            Some(OreKind::Silver)
        } else if roll < 171798784 {
            Some(OreKind::Gold)
        } else {
            None
        },
        _ => None,
    }
}

/// The ore a roll assigns to a tile of `layer`.
pub fn roll_ore(layer: Layer, roll: u32) -> (o: Option<OreKind>)
    ensures
        o == spec_roll_ore(layer, roll),
{
    match layer {
        Layer::Dirt => if roll < 171798784 {
            Some(OreKind::Copper)
        } else if roll < 193273600 {
            Some(OreKind::Silver)
        } else {
            None
        },
        Layer::Stone => if roll < 85899520 {
            Some(OreKind::Copper)
        } else if roll < 193273600 {
            Some(OreKind::Silver)
        } else if roll < 206158592 {
            Some(OreKind::Gold)
        } else {
            None
        },
        Layer::Deep => if roll < 21475072 {
            Some(OreKind::Copper)
        } else if roll < 85899520 {
            Some(OreKind::Silver)
        } else if roll < 171798784 {
            Some(OreKind::Gold)
        } else {
            None
        },
        _ => None,
    }
}

/// Interior rows of a map of height `h` whose tiles draw rolls.
pub open spec fn row_rolls(h: int, y: int) -> bool {
    SURFACE_ROWS < y && y < deep_end(h) && y < h - 1
}

/// Rows above row `y` whose interior tiles draw rolls.
pub open spec fn roll_rows_before(h: int, y: int) -> int {
    let lim = if deep_end(h) < h - 1 { deep_end(h) } else { h - 1 };
    let top = if y < lim { y } else { lim };
    if top > SURFACE_ROWS + 1 { top - (SURFACE_ROWS + 1) } else { 0 }
}

/// Tiles per row inside the bedrock ring.
pub open spec fn interior_width(w: int) -> int {
    if w > 2 { w - 2 } else { 0 }
}

/// How many rolls a `w` x `h` map draws.
pub open spec fn roll_count(w: int, h: int) -> int {
    roll_rows_before(h, h) * interior_width(w)
}

/// Where tile (x, y) stands among the tiles that draw a roll, counted row by
/// row from the top, left to right: its roll is the one drawn at that
/// position. Meant for tiles with `terrain_rolls`.
pub open spec fn roll_index(w: int, h: int, x: int, y: int) -> int {
    roll_rows_before(h, y) * interior_width(w) + (x - 1)
}

/// The tile (x, y) of the banded terrain, before the spawn pocket is carved;
/// `roll` decides its ore where it draws one.
pub open spec fn banded_tile(w: int, h: int, x: int, y: int, roll: u32) -> Tile {
    Tile {
        solid: terrain_solid(w, h, x, y),
        layer: terrain_layer(w, h, x, y),
        ore: if terrain_rolls(w, h, x, y) { spec_roll_ore(terrain_layer(w, h, x, y), roll) } else { None },
        damage: 0,
    }
}

/// The tile the player spawns on.
pub open spec fn spec_spawn_tile(w: int) -> (int, int) {
    (w / 2, SURFACE_ROWS + 1)
}

/// The 3x3 block around the spawn tile.
pub open spec fn in_spawn_pocket(w: int, x: int, y: int) -> bool {
    let (sx, sy) = spec_spawn_tile(w);
    sx - 1 <= x <= sx + 1 && sy - 1 <= y <= sy + 1
}

/// The tile two below the spawn tile, made solid so the player lands.
pub open spec fn is_spawn_floor(w: int, x: int, y: int) -> bool {
    let (sx, sy) = spec_spawn_tile(w);
    x == sx && y == sy + 2
}

/// The generated tile at (x, y): banded terrain, then the spawn pocket
/// cleared (empty, no ore) and its floor filled (solid, no ore).
pub open spec fn generated_tile(w: int, h: int, x: int, y: int, roll: u32) -> Tile {
    let t = banded_tile(w, h, x, y, roll);
    if in_spawn_pocket(w, x, y) {
        Tile { solid: false, ore: None, ..t }
    } else if is_spawn_floor(w, x, y) {
        Tile { solid: true, ore: None, ..t }
    } else {
        t
    }
}

/// The roll that tile (x, y) takes from `rolls` (0 where it draws none, which
/// no tile then reads).
pub open spec fn roll_from(rolls: Seq<u32>, w: int, h: int, x: int, y: int) -> u32 {
    if terrain_rolls(w, h, x, y) { rolls[roll_index(w, h, x, y)] } else { 0 }
}

/// The roll that tile (x, y) takes from the stream seeded with `seed`.
pub open spec fn seeded_roll_for(seed: u64, w: int, h: int, x: int, y: int) -> u32 {
    if terrain_rolls(w, h, x, y) { seeded_roll(seed, roll_index(w, h, x, y) as nat) } else { 0 }
}

/// `g` is the terrain generated for `width`, `height` and `seed`.
pub open spec fn is_generated(g: Grid, width: int, height: int, seed: u64) -> bool {
    &&& g.wf()
    &&& g.w() == width
    &&& g.h() == height
    &&& forall|x: int, y: int| #![trigger g.tile_at(x, y)] g.in_grid(x, y)
        ==> g.tile_at(x, y) == generated_tile(width, height, x, y, seeded_roll_for(seed, width, height, x, y))
}

/// Every tile that draws a roll has a position below `roll_count`.
pub proof fn lemma_roll_index_bounds(w: int, h: int, x: int, y: int)
    requires
        0 <= x < w,
        0 <= y < h,
        terrain_rolls(w, h, x, y),
    ensures
        0 <= roll_index(w, h, x, y) < roll_count(w, h),
        roll_rows_before(h, y) == y - (SURFACE_ROWS + 1),
{
    let lim = if deep_end(h) < h - 1 { deep_end(h) } else { h - 1 };
    let c = w - 2;
    let a = y - 4;
    let rows = lim - 4;
    assert(roll_rows_before(h, h) == rows);
    assert(roll_rows_before(h, y) == a);
    assert(a * c + (x - 1) < rows * c && 0 <= a * c + (x - 1)) by (nonlinear_arith)
        requires
            0 <= a < rows,
            1 <= x <= c,
    ;
}

pub fn spawn_tile(g: &Grid) -> (p: (i32, i32))
    ensures
        p.0 == spec_spawn_tile(g.w()).0,
        p.1 == spec_spawn_tile(g.w()).1,
{
    ((g.width() / 2) as i32, SURFACE_ROWS + 1)
}

/// Tiles between the spawn tile and the shop (to its right) or the smelter
/// (to its left).
pub const STATION_OFFSET_TILES: i32 = 3;

/// Where the shop stands: on the spawn row, right of the spawn tile.
pub fn shop_tile(g: &Grid) -> (t: IVec2)
    requires
        spec_spawn_tile(g.w()).0 + STATION_OFFSET_TILES <= i32::MAX,
    ensures
        t.x == spec_spawn_tile(g.w()).0 + STATION_OFFSET_TILES,
        t.y == spec_spawn_tile(g.w()).1,
{
    let sp = spawn_tile(g);
    IVec2::new(sp.0 + STATION_OFFSET_TILES, sp.1)
}

/// Where the smelter stands: on the spawn row, left of the spawn tile.
pub fn smelter_tile(g: &Grid) -> (t: IVec2)
    requires
        g.wf(),
    ensures
        t.x == spec_spawn_tile(g.w()).0 - STATION_OFFSET_TILES,
        t.y == spec_spawn_tile(g.w()).1,
{
    let sp = spawn_tile(g);
    IVec2::new(sp.0 - STATION_OFFSET_TILES, sp.1)
}

fn f32_round_exec(a: u64) -> (r: (u64, u64))
    requires
        a <= 0x1_0000_0000_0000,
    ensures
        r.0 == f32_round(a as nat).0,
        r.1 == f32_round(a as nat).1,
        r.0 <= 0x1000000,
        r.1 >= 1,
        r.1 == 1 || r.1 * 0x800000 <= a,
{
    let mut p: u64 = 1;
    while a / p >= 0x1000000
        invariant
            a <= 0x1_0000_0000_0000,
            p >= 1,
            p == 1 || p * 0x800000 <= a,
            sig24_scale(a as nat) == p * sig24_scale((a / p) as nat),
        decreases a / p,
    {
        proof {
            let q = a / p;
            lemma_fundamental_div_mod(a as int, p as int);
            assert(p * 0x1000000 <= a) by (nonlinear_arith)
                requires
                    q >= 0x1000000,
                    p >= 1,
                    a == p * q + a % p,
                    a % p >= 0,
            ;
            lemma_div_denominator(a as int, p as int, 2);
            assert(sig24_scale(q as nat) == 2 * sig24_scale((q / 2) as nat));
            let s = sig24_scale((q / 2) as nat);
            assert(p * (2 * s) == (p * 2) * s) by (nonlinear_arith);
        }
        p = p * 2;
    }
    proof {
        let s = sig24_scale((a / p) as nat);
        assert(s == 1);
        assert(p * s == p) by (nonlinear_arith)
            requires
                s == 1,
        ;
    }
    let q = a / p;
    let r = a % p;
    let up = 2 * r > p || (2 * r == p && q % 2 == 1);
    if up {
        (q + 1, p)
    } else {
        (q, p)
    }
}

fn f32_scaled_trunc_exec(n: u64, c_m: u64) -> (t: u64)
    requires
        n < 0x8000_0000,
        c_m < 0x1000000,
    ensures
        t == f32_scaled_trunc(n as nat, c_m as nat),
        t <= 0x1_0000_0000,
{
    let (m1, p1) = f32_round_exec(n);
    assert(m1 * c_m <= 0x1_0000_0000_0000) by (nonlinear_arith)
        requires
            m1 <= 0x1000000,
            c_m < 0x1000000,
    ;
    let (m2, p2) = f32_round_exec(m1 * c_m);
    assert(p1 <= 0x100) by (nonlinear_arith)
        requires
            p1 == 1 || p1 * 0x800000 <= n,
            n < 0x8000_0000,
    ;
    assert(p2 <= 0x2000000) by (nonlinear_arith)
        requires
            p2 == 1 || p2 * 0x800000 <= m1 * c_m,
            m1 * c_m <= 0x1_0000_0000_0000,
    ;
    assert(m2 * p2 <= 0x2_0000_0000_0000 && m2 * p2 * p1 <= 0x200_0000_0000_0000) by (nonlinear_arith)
        requires
            m2 <= 0x1000000,
            p2 <= 0x2000000,
            p1 <= 0x100,
    ;
    (m2 * p2 * p1) / 0x2000000
}

/// `(n as f32 * c) as i32`, for the `f32` constant `c == c_m / 2^25`.
fn f32_band_exec(n: i64, c_m: u64) -> (t: i64)
    requires
        -0x8000_0000 < n < 0x8000_0000,
        c_m < 0x1000000,
    ensures
        t == f32_band(n as int, c_m as nat),
        -0x1_0000_0000 <= t <= 0x1_0000_0000,
{
    if n >= 0 {
        f32_scaled_trunc_exec(n as u64, c_m) as i64
    } else {
        -(f32_scaled_trunc_exec((-n) as u64, c_m) as i64)
    }
}

/// First rows below the dirt, stone and deep bands of a map of height `h`.
fn band_ends(h: i32) -> (r: (i64, i64, i64))
    requires
        h > 0,
    ensures
        r.0 == dirt_end(h as int),
        r.1 == stone_end(h as int),
        r.2 == deep_end(h as int),
        r.2 <= 4 + 3 * 0x1_0000_0000,
{
    let interior_h: i64 = h as i64 - 2 - SURFACE_ROWS as i64;
    let dirt_end_row: i64 = 1 + SURFACE_ROWS as i64 + f32_band_exec(interior_h, DIRT_FRAC_M);
    let stone_end_row: i64 = dirt_end_row + f32_band_exec(interior_h, STONE_FRAC_M);
    let deep_end_row: i64 = stone_end_row + f32_band_exec(interior_h, DEEP_FRAC_M);
    (dirt_end_row, stone_end_row, deep_end_row)
}

fn roll_count_exec(w: i32, h: i32) -> (n: usize)
    requires
        w > 0,
        h > 0,
        w * h <= u32::MAX,
    ensures
        n == roll_count(w as int, h as int),
{
    let (_, _, deep_end_row) = band_ends(h);
    let lim: i64 = if deep_end_row < h as i64 - 1 { deep_end_row } else { h as i64 - 1 };
    let rows: i64 = if lim > SURFACE_ROWS as i64 + 1 { lim - (SURFACE_ROWS as i64 + 1) } else { 0 };
    let iw: i64 = if w > 2 { w as i64 - 2 } else { 0 };
    assert(0 <= rows * iw <= w * h) by (nonlinear_arith)
        requires
            0 <= rows <= h,
            0 <= iw <= w,
    ;
    (rows * iw) as usize
}

/// Terrain of `width` x `height` tiles whose ore comes from `rolls`: a
/// bedrock ring, an open surface strip, then dirt, stone, deep and core bands,
/// and a carved spawn pocket. The tiles of the dirt, stone and deep bands take
/// the rolls in order, row by row from the top and left to right: the `k`-th
/// such tile gets `spec_roll_ore(layer, rolls[k])`.
pub fn generate_with_rolls(width: u32, height: u32, rolls: &[u32]) -> (g: Grid)
    requires
        width > 0,
        height > 0,
        width * height <= u32::MAX,
        width <= i32::MAX,
        height <= i32::MAX,
        rolls@.len() >= roll_count(width as int, height as int),
    ensures
        g.wf(),
        g.w() == width,
        g.h() == height,
        forall|x: int, y: int| #![trigger g.tile_at(x, y)] g.in_grid(x, y)
            ==> g.tile_at(x, y) == generated_tile(width as int, height as int, x, y, roll_from(rolls@, width as int, height as int, x, y)),
{
    let mut g = Grid::new(width, height);
    let w: i32 = width as i32;
    let h: i32 = height as i32;
    let (dirt_end_row, stone_end_row, deep_end_row) = band_ends(h);
    let ghost iw = interior_width(w as int);
    let mut k: usize = 0;
    let mut y: i32 = 0;
    while y < h
        invariant
            0 <= y <= h,
            w == width,
            h == height,
            w * h <= u32::MAX,
            rolls@.len() >= roll_count(w as int, h as int),
            iw == interior_width(w as int),
            g.wf(),
            g.w() == width,
            g.h() == height,
            dirt_end_row == dirt_end(h as int),
            stone_end_row == stone_end(h as int),
            deep_end_row == deep_end(h as int),
            k == roll_rows_before(h as int, y as int) * iw,
            forall|qx: int, qy: int| #![trigger g.tile_at(qx, qy)] g.in_grid(qx, qy) && qy < y
                ==> g.tile_at(qx, qy) == banded_tile(w as int, h as int, qx, qy, roll_from(rolls@, w as int, h as int, qx, qy)),
        decreases h - y,
    {
        let ghost row_start = k;
        let mut x: i32 = 0;
        while x < w
            invariant
                0 <= x <= w,
                0 <= y < h,
                w == width,
                h == height,
                w * h <= u32::MAX,
                rolls@.len() >= roll_count(w as int, h as int),
                iw == interior_width(w as int),
                g.wf(),
                g.w() == width,
                g.h() == height,
                dirt_end_row == dirt_end(h as int),
                stone_end_row == stone_end(h as int),
                deep_end_row == deep_end(h as int),
                row_start == roll_rows_before(h as int, y as int) * iw,
                k == row_start + if row_rolls(h as int, y as int) {
                    if x <= 1 { 0 } else if x >= w - 1 { iw } else { x - 1 }
                } else {
                    0
                },
                forall|qx: int, qy: int| #![trigger g.tile_at(qx, qy)] g.in_grid(qx, qy) && (qy < y || (qy == y && qx < x))
                    ==> g.tile_at(qx, qy) == banded_tile(w as int, h as int, qx, qy, roll_from(rolls@, w as int, h as int, qx, qy)),
            decreases w - x,
        {
            let ghost roll = roll_from(rolls@, w as int, h as int, x as int, y as int);
            let mut tile = Tile::default();
            if x == 0 || y == 0 || x == w - 1 || y == h - 1 {
                tile.layer = Layer::Bedrock;
            } else if y <= SURFACE_ROWS {
                tile.solid = false;
                tile.layer = Layer::Dirt;
            } else {
                if (y as i64) < dirt_end_row {
                    tile.layer = Layer::Dirt;
                } else if (y as i64) < stone_end_row {
                    tile.layer = Layer::Stone;
                } else if (y as i64) < deep_end_row {
                    tile.layer = Layer::Deep;
                } else {
                    tile.layer = Layer::Core;
                }
                if (y as i64) < deep_end_row {
                    proof {
                        lemma_roll_index_bounds(w as int, h as int, x as int, y as int);
                    }
                    let r = rolls[k];
                    tile.ore = roll_ore(tile.layer, r);
                    k = k + 1;
                }
            }
            assert(tile == banded_tile(w as int, h as int, x as int, y as int, roll));
            let ghost before = g;
            g.set(x, y, tile);
            proof {
                assert forall|qx: int, qy: int| #![trigger g.tile_at(qx, qy)] g.in_grid(qx, qy) && (qy < y || (qy == y && qx < x + 1))
                    implies g.tile_at(qx, qy) == banded_tile(w as int, h as int, qx, qy, roll_from(rolls@, w as int, h as int, qx, qy)) by {
                    lemma_tile_at_update(before, g, x as int, y as int, tile, qx, qy);
                }
            }
            x = x + 1;
        }
        proof {
            assert(roll_rows_before(h as int, y + 1) == roll_rows_before(h as int, y as int) + if row_rolls(h as int, y as int) { 1int } else { 0 });
            let r0 = roll_rows_before(h as int, y as int);
            assert((r0 + 1) * iw == r0 * iw + iw) by (nonlinear_arith);
        }
        y = y + 1;
    }
    carve_spawn_pocket(&mut g);
    g
}

/// Terrain of `width` x `height` tiles, seeded with `seed`: a bedrock ring,
/// an open surface strip, then dirt, stone, deep and core bands with ore
/// from the rolls drawn with `seed`, and a carved spawn pocket. Equal
/// arguments give equal terrain.
pub fn generate(width: u32, height: u32, seed: u64) -> (g: Grid)
    requires
        width > 0,
        height > 0,
        width * height <= u32::MAX,
        width <= i32::MAX,
        height <= i32::MAX,
    ensures
        is_generated(g, width as int, height as int, seed),
{
    let count = roll_count_exec(width as i32, height as i32);
    let rolls = seeded_rolls(seed, count);
    let g = generate_with_rolls(width, height, rolls.as_slice());
    proof {
        assert forall|x: int, y: int| #![trigger g.tile_at(x, y)] g.in_grid(x, y)
            implies g.tile_at(x, y) == generated_tile(width as int, height as int, x, y, seeded_roll_for(seed, width as int, height as int, x, y)) by {
            if terrain_rolls(width as int, height as int, x, y) {
                lemma_roll_index_bounds(width as int, height as int, x, y);
                assert(rolls@[roll_index(width as int, height as int, x, y)] == seeded_roll(seed, roll_index(width as int, height as int, x, y) as nat));
            }
        }
    }
    g
}


/// Clears the 3x3 block around the spawn tile and fills the tile two below
/// the spawn tile, removing ore from all of them. Cells outside the grid are
/// skipped.
fn carve_spawn_pocket(g: &mut Grid)
    requires
        old(g).wf(),
        old(g).w() <= i32::MAX,
    ensures
        final(g).wf(),
        final(g).w() == old(g).w(),
        final(g).h() == old(g).h(),
        forall|x: int, y: int| #![trigger final(g).tile_at(x, y)] final(g).in_grid(x, y) ==> final(g).tile_at(x, y) == {
            let t = old(g).tile_at(x, y);
            if in_spawn_pocket(old(g).w(), x, y) {
                Tile { solid: false, ore: None, ..t }
            } else if is_spawn_floor(old(g).w(), x, y) {
                Tile { solid: true, ore: None, ..t }
            } else {
                t
            }
        },
{
    let ghost g0 = *g;
    let sp = spawn_tile(g);
    let mut dy: i32 = -1;
    while dy <= 1
        invariant
            -1 <= dy <= 2,
            g0.w() <= i32::MAX,
            g.wf(),
            g.w() == g0.w(),
            g.h() == g0.h(),
            g0.wf(),
            sp.0 == spec_spawn_tile(g0.w()).0,
            sp.1 == spec_spawn_tile(g0.w()).1,
            forall|x: int, y: int| #![trigger g.tile_at(x, y)] g.in_grid(x, y) ==> g.tile_at(x, y) == {
                let t = g0.tile_at(x, y);
                if in_spawn_pocket(g0.w(), x, y) && y < sp.1 + dy {
                    Tile { solid: false, ore: None, ..t }
                } else {
                    t
                }
            },
        decreases 2 - dy,
    {
        let mut dx: i32 = -1;
        while dx <= 1
            invariant
                -1 <= dx <= 2,
                -1 <= dy <= 1,
                g0.w() <= i32::MAX,
                g.wf(),
                g.w() == g0.w(),
                g.h() == g0.h(),
                g0.wf(),
                sp.0 == spec_spawn_tile(g0.w()).0,
                sp.1 == spec_spawn_tile(g0.w()).1,
                forall|x: int, y: int| #![trigger g.tile_at(x, y)] g.in_grid(x, y) ==> g.tile_at(x, y) == {
                    let t = g0.tile_at(x, y);
                    if in_spawn_pocket(g0.w(), x, y) && (y < sp.1 + dy || (y == sp.1 + dy && x < sp.0 + dx)) {
                        Tile { solid: false, ore: None, ..t }
                    } else {
                        t
                    }
                },
            decreases 2 - dx,
        {
            let ghost before = *g;
            let px = sp.0 + dx;
            let py = sp.1 + dy;
            let cur = match g.get(px, py) {
                Some(t) => Some(*t),
                None => None,
            };
            if let Some(t) = cur {
                g.set(px, py, Tile { solid: false, ore: None, ..t });
            }
            proof {
                assert forall|x: int, y: int| #![trigger g.tile_at(x, y)] g.in_grid(x, y) implies g.tile_at(x, y) == {
                    let t = g0.tile_at(x, y);
                    if in_spawn_pocket(g0.w(), x, y) && (y < sp.1 + dy || (y == sp.1 + dy && x < sp.0 + dx + 1)) {
                        Tile { solid: false, ore: None, ..t }
                    } else {
                        t
                    }
                } by {
                    if before.in_grid(px as int, py as int) {
                        let t = before.tile_at(px as int, py as int);
                        lemma_tile_at_update(before, *g, px as int, py as int, Tile { solid: false, ore: None, ..t }, x, y);
                    }
                }
            }
            dx = dx + 1;
        }
        dy = dy + 1;
    }
    let ghost before = *g;
    let fx = sp.0;
    let fy = sp.1 + 2;
    let cur = match g.get(fx, fy) {
        Some(t) => Some(*t),
        None => None,
    };
    if let Some(t) = cur {
        g.set(fx, fy, Tile { solid: true, ore: None, ..t });
    }
    proof {
        assert forall|x: int, y: int| #![trigger g.tile_at(x, y)] g.in_grid(x, y) implies g.tile_at(x, y) == {
            let t = g0.tile_at(x, y);
            if in_spawn_pocket(g0.w(), x, y) {
                Tile { solid: false, ore: None, ..t }
            } else if is_spawn_floor(g0.w(), x, y) {
                Tile { solid: true, ore: None, ..t }
            } else {
                t
            }
        } by {
            if before.in_grid(fx as int, fy as int) {
                let t = before.tile_at(fx as int, fy as int);
                lemma_tile_at_update(before, *g, fx as int, fy as int, Tile { solid: true, ore: None, ..t }, x, y);
            }
        }
    }
}

/// Depth rank of a diggable layer.
pub open spec fn layer_rank(l: Layer) -> int {
    match l {
        Layer::Dirt => 0,
        Layer::Stone => 1,
        Layer::Deep => 2,
        Layer::Core => 3,
        Layer::Bedrock => 4,
    }
}

/// Generated terrain: the outer ring is bedrock, the interior never is, the
/// surface strip (rows 1 to 3) is open, and ore only occurs in the dirt,
/// stone and deep bands, never gold in dirt.
pub proof fn law_generated_terrain_shape(w: int, h: int, x: int, y: int, roll: u32)
    requires
        0 <= x < w,
        0 <= y < h,
    ensures
        ({
            let t = generated_tile(w, h, x, y, roll);
            &&& on_border(w, h, x, y) <==> t.layer == Layer::Bedrock
            &&& !on_border(w, h, x, y) && 1 <= y <= SURFACE_ROWS ==> !t.solid
            &&& on_border(w, h, x, y) && !in_spawn_pocket(w, x, y) ==> t.solid
            &&& t.ore is Some ==> terrain_rolls(w, h, x, y)
            &&& t.ore is Some ==> t.layer == Layer::Dirt || t.layer == Layer::Stone || t.layer == Layer::Deep
            &&& t.layer == Layer::Dirt ==> t.ore != Some(OreKind::Gold)
            &&& t.damage == 0
        }),
{
}

/// Equal arguments give equal terrain: two grids generated for the same
/// width, height and seed hold the same tiles.
pub proof fn law_generate_deterministic(g1: Grid, g2: Grid, width: int, height: int, seed: u64)
    requires
        is_generated(g1, width, height, seed),
        is_generated(g2, width, height, seed),
    ensures
        g1.cells() == g2.cells(),
{
    assert forall|i: int| 0 <= i < g1.cells().len() implies g1.cells()[i] == g2.cells()[i] by {
        let x = i % width;
        let y = i / width;
        lemma_fundamental_div_mod(i, width);
        assert(0 <= x < width);
        assert(0 <= y < height) by (nonlinear_arith)
            requires
                i == width * y + x,
                0 <= x < width,
                0 <= i < width * height,
        ;
        assert(y * width == width * y) by (nonlinear_arith);
        assert(g1.index_of(x, y) == i);
        assert(g1.tile_at(x, y) == g2.tile_at(x, y));
    }
    assert(g1.cells() =~= g2.cells());
}

/// Below the surface, interior layers never get shallower with depth:
/// dirt, then stone, then deep, then core.
pub proof fn law_layers_ordered_by_depth(w: int, h: int, x1: int, y1: int, x2: int, y2: int)
    requires
        h >= 5,
        0 < x1 < w - 1,
        0 < x2 < w - 1,
        0 < y1 <= y2 < h - 1,
    ensures
        layer_rank(terrain_layer(w, h, x1, y1)) <= layer_rank(terrain_layer(w, h, x2, y2)),
{
}

/// A roll stands for the uniform value `(roll / 2^8) / 2^24` in [0, 1), the
/// 24-bit fraction that `rand` makes of a `u32` draw. This says whether that
/// value lies below `per_mille / 1000`.
pub open spec fn roll_below(roll: u32, per_mille: int) -> bool {
    1000 * (roll as int / 256) < per_mille * 0x1000000
}

/// Each layer's ore follows its cumulative ore probabilities: dirt gives
/// copper below 4% and silver from 4% to 4.5%; stone gives copper below 2%,
/// silver from 2% to 4.5% and gold from 4.5% to 4.8%; deep rock gives copper
/// below 0.5%, silver from 0.5% to 2% and gold from 2% to 4%; every other
/// roll, and every roll in the core or bedrock, gives no ore.
pub proof fn law_roll_ore_follows_ore_shares(layer: Layer, roll: u32)
    ensures
        spec_roll_ore(layer, roll) == match layer {
            Layer::Dirt => if roll_below(roll, 40) {
                Some(OreKind::Copper)
            } else if roll_below(roll, 45) {
                Some(OreKind::Silver)
            } else {
                None
            },
            Layer::Stone => if roll_below(roll, 20) {
                Some(OreKind::Copper)
            } else if roll_below(roll, 45) {
                Some(OreKind::Silver)
            } else if roll_below(roll, 48) {
                Some(OreKind::Gold)
            } else {
                None
            },
            Layer::Deep => if roll_below(roll, 5) {
                Some(OreKind::Copper)
            } else if roll_below(roll, 20) {
                Some(OreKind::Silver)
            } else if roll_below(roll, 40) {
                Some(OreKind::Gold)
            } else {
                None
            },
            _ => None::<OreKind>,
        },
{
    let q = roll as int / 256;
    assert(roll as int == 256 * q + roll as int % 256);
    assert(roll_below(roll, 5) <==> roll < 21475072);
    assert(roll_below(roll, 20) <==> roll < 85899520);
    assert(roll_below(roll, 40) <==> roll < 171798784);
    assert(roll_below(roll, 45) <==> roll < 193273600);
    assert(roll_below(roll, 48) <==> roll < 206158592);
}

} // verus!