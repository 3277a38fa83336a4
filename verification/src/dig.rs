use vstd::prelude::*;
use crate::coords::IVec2;
use crate::grid::{Grid, Tile};
use crate::items::OreKind;
use crate::tools::{OwnedTools, Tool, best_applicable_tool, clicks_required, spec_best_applicable_tool, spec_clicks_required};

verus! {

/// What a single strike at a tile did.
#[derive(Clone, Copy, Debug, PartialEq, Eq, Structural)]
pub enum DigStatus {
    /// The strike reached the tool's click count: the tile is now empty.
    Broken,
    /// The strike counted but the tile still stands.
    Damaged,
    OutOfBounds,
    AlreadyEmpty,
    /// The tool is below the layer's tier (or the layer is bedrock).
    UnderTier,
}

#[derive(Clone, Copy, Debug, PartialEq, Eq, Structural)]
pub struct DigResult {
    pub status: DigStatus,
    /// The ore freed by a `Broken` strike; `None` for every other status.
    pub ore: Option<OreKind>,
}

/// The tile left behind when `t` breaks: empty, same layer, no ore, no damage.
pub open spec fn broken_tile(t: Tile) -> Tile {
    Tile { solid: false, layer: t.layer, ore: None, damage: 0 }
}

/// The tile after one more strike that does not break it.
pub open spec fn damaged_tile(t: Tile) -> Tile {
    Tile { damage: (t.damage + 1) as u8, ..t }
}

/// Outcome of one strike at `target` with `tool` on `g`: the result and the
/// grid's tiles afterwards.
pub open spec fn spec_dig(g: Grid, target: IVec2, tool: Tool) -> (DigResult, Seq<Tile>) {
    let x = target.x as int;
    let y = target.y as int;
    let t = g.tile_at(x, y);
    let i = g.index_of(x, y);
    if !g.in_grid(x, y) {
        (DigResult { status: DigStatus::OutOfBounds, ore: None }, g.cells())
    } else if !t.solid {
        (DigResult { status: DigStatus::AlreadyEmpty, ore: None }, g.cells())
    } else {
        match spec_clicks_required(tool, t.layer) {
            None => (DigResult { status: DigStatus::UnderTier, ore: None }, g.cells()),
            Some(need) => if t.damage + 1 >= need {
                (DigResult { status: DigStatus::Broken, ore: t.ore }, g.cells().update(i, broken_tile(t)))
            } else {
                (DigResult { status: DigStatus::Damaged, ore: None }, g.cells().update(i, damaged_tile(t)))
            },
        }
    }
}

/// Strikes the tile at `target` once with `tool`.
///
/// Out-of-grid, already-empty and under-tier strikes change nothing. Otherwise
/// the tile takes one point of damage and breaks once its damage reaches the
/// tool's click count for the layer; breaking frees its ore.
pub fn try_dig(grid: &mut Grid, target: IVec2, tool: Tool) -> (r: DigResult)
    requires
        old(grid).wf(),
    ensures
        final(grid).wf(),
        final(grid).w() == old(grid).w(),
        final(grid).h() == old(grid).h(),
        r == spec_dig(*old(grid), target, tool).0,
        final(grid).cells() == spec_dig(*old(grid), target, tool).1,
        r.status == DigStatus::Broken ==> {
            &&& old(grid).in_grid(target.x as int, target.y as int)
            &&& r.ore == old(grid).tile_at(target.x as int, target.y as int).ore
            &&& !final(grid).tile_at(target.x as int, target.y as int).solid
            &&& final(grid).tile_at(target.x as int, target.y as int).ore is None
        },
        r.status != DigStatus::Broken ==> r.ore is None,
{
    proof {
        law_broken_tile_frees_its_ore(*old(grid), target, tool);
    }
    let t = match grid.get(target.x, target.y) {
        Some(t) => *t,
        None => return DigResult { status: DigStatus::OutOfBounds, ore: None },
    };
    if !t.solid {
        return DigResult { status: DigStatus::AlreadyEmpty, ore: None };
    }
    let need = match clicks_required(tool, t.layer) {
        Some(n) => n,
        None => return DigResult { status: DigStatus::UnderTier, ore: None },
    };
    if t.damage >= need - 1 {
        grid.set(target.x, target.y, Tile { solid: false, layer: t.layer, ore: None, damage: 0 });
        DigResult { status: DigStatus::Broken, ore: t.ore }
    } else {
        grid.set(target.x, target.y, Tile { damage: t.damage + 1, ..t });
        DigResult { status: DigStatus::Damaged, ore: None }
    }
}

pub open spec fn abs(v: int) -> int {
    if v < 0 { -v } else { v }
}

pub open spec fn sign(v: int) -> int {
    if v < 0 { -1 } else if v > 0 { 1 } else { 0 }
}

/// The tile `k` steps from `from` in direction (`sx`, `sy`) is inside the grid
/// and empty.
pub open spec fn clear_step(grid: Grid, from: IVec2, sx: int, sy: int, k: int) -> bool {
    let qx = from.x + k * sx;
    let qy = from.y + k * sy;
    grid.in_grid(qx, qy) && !grid.tile_at(qx, qy).solid
}

/// Tiles strictly between `from` and `to` along a straight line are all
/// inside the grid and empty. Meant for cardinal pairs.
pub open spec fn line_of_sight(grid: Grid, from: IVec2, to: IVec2) -> bool {
    let dx = to.x - from.x;
    let dy = to.y - from.y;
    forall|k: int| 0 < k < abs(dx) + abs(dy) ==> #[trigger] clear_step(grid, from, sign(dx), sign(dy), k)
}

/// `target` can be struck from `player`: same row or column, between 1 and
/// `reach` tiles away, with every tile in between inside the grid and empty.
pub open spec fn spec_dig_target_valid(player: IVec2, target: IVec2, reach: int, grid: Grid) -> bool {
    let dx = target.x - player.x;
    let dy = target.y - player.y;
    &&& (dx == 0) != (dy == 0)
    &&& abs(dx) + abs(dy) <= reach
    &&& line_of_sight(grid, player, target)
}

pub fn dig_target_valid(player: IVec2, target: IVec2, reach: i32, grid: &Grid) -> (b: bool)
    requires
        grid.wf(),
    ensures
        b == spec_dig_target_valid(player, target, reach as int, *grid),
{
    let dx: i64 = target.x as i64 - player.x as i64;
    let dy: i64 = target.y as i64 - player.y as i64;
    if (dx == 0) == (dy == 0) {
        return false;
    }
    let adx: i64 = if dx < 0 { -dx } else { dx };
    let ady: i64 = if dy < 0 { -dy } else { dy };
    let dist: i64 = adx + ady;
    if dist > reach as i64 {
        return false;
    }
    let sx: i64 = if dx < 0 { -1 } else if dx > 0 { 1 } else { 0 };
    let sy: i64 = if dy < 0 { -1 } else if dy > 0 { 1 } else { 0 };
    let mut k: i64 = 1;
    while k < dist
        invariant
            1 <= k <= dist || dist == 1 && k == 1,
            dist == abs(dx as int) + abs(dy as int),
            dx == target.x - player.x,
            dy == target.y - player.y,
            (dx == 0) != (dy == 0),
            sx == sign(dx as int),
            sy == sign(dy as int),
            grid.wf(),
            forall|j: int| 0 < j < k ==> #[trigger] clear_step(*grid, player, sign(dx as int), sign(dy as int), j),
        decreases dist - k,
    {
        let qx: i64 = if sx > 0 {
            player.x as i64 + k
        } else if sx < 0 {
            player.x as i64 - k
        } else {
            player.x as i64
        };
        let qy: i64 = if sy > 0 {
            player.y as i64 + k
        } else if sy < 0 {
            player.y as i64 - k
        } else {
            player.y as i64
        };
        proof {
            assert(k * sx == k * sign(dx as int)) by (nonlinear_arith)
                requires sx == sign(dx as int);
            assert(k * sy == k * sign(dy as int)) by (nonlinear_arith)
                requires sy == sign(dy as int);
            if dx == 0 {
                assert(k * sx == 0) by (nonlinear_arith) requires sx == 0;
            } else {
                assert(k * sy == 0) by (nonlinear_arith) requires sy == 0;
                if dx > 0 { assert(k * sx == k) by (nonlinear_arith) requires sx == 1; }
                else { assert(k * sx == -k) by (nonlinear_arith) requires sx == -1; }
            }
            if dy != 0 {
                if dy > 0 { assert(k * sy == k) by (nonlinear_arith) requires sy == 1; }
                else { assert(k * sy == -k) by (nonlinear_arith) requires sy == -1; }
            }
        }
        proof {
            assert(qx == player.x + k * sign(dx as int));
            assert(qy == player.y + k * sign(dy as int));
            assert(i32::MIN <= qx <= i32::MAX);
            assert(i32::MIN <= qy <= i32::MAX);
        }
        let ok = match grid.get(qx as i32, qy as i32) {
            Some(t) => !t.solid,
            None => false,
        };
        if !ok {
            proof {
                assert(!clear_step(*grid, player, sign(dx as int), sign(dy as int), k as int));
            }
            return false;
        }
        k = k + 1;
    }
    true
}

/// How far a player can strike, in tiles.
pub const DIG_REACH_TILES: i32 = 2;

/// One dig attempt by a player standing on `player_tile`: rejected (`None`,
/// grid unchanged) when `target` is not a valid target within `reach` or no
/// owned tool can break its layer; otherwise one strike with the best owned
/// tool.
pub fn dig_with_best_tool(grid: &mut Grid, player_tile: IVec2, target: IVec2, reach: i32, owned: &OwnedTools) -> (r: Option<(Tool, DigResult)>)
    requires
        old(grid).wf(),
    ensures
        final(grid).wf(),
        final(grid).w() == old(grid).w(),
        final(grid).h() == old(grid).h(),
        !spec_dig_target_valid(player_tile, target, reach as int, *old(grid)) ==> r is None && final(grid).cells() == old(grid).cells(),
        spec_dig_target_valid(player_tile, target, reach as int, *old(grid))
            && !old(grid).in_grid(target.x as int, target.y as int) ==> r is None && final(grid).cells() == old(grid).cells(),
        spec_dig_target_valid(player_tile, target, reach as int, *old(grid))
            && old(grid).in_grid(target.x as int, target.y as int) ==> {
            let layer = old(grid).tile_at(target.x as int, target.y as int).layer;
            match spec_best_applicable_tool(owned.owned(), layer) {
                None => r is None && final(grid).cells() == old(grid).cells(),
                Some(tool) => {
                    &&& r == Some((tool, spec_dig(*old(grid), target, tool).0))
                    &&& final(grid).cells() == spec_dig(*old(grid), target, tool).1
                },
            }
        },
{
    if !dig_target_valid(player_tile, target, reach, grid) {
        return None;
    }
    let layer = match grid.get(target.x, target.y) {
        Some(t) => t.layer,
        None => return None,
    };
    let tool = match best_applicable_tool(owned, layer) {
        Some(t) => t,
        None => return None,
    };
    let res = try_dig(grid, target, tool);
    Some((tool, res))
}

/// One strike at a single tile: the status and the tile afterwards.
pub open spec fn strike_tile(t: Tile, tool: Tool) -> (DigStatus, Tile) {
    if !t.solid {
        (DigStatus::AlreadyEmpty, t)
    } else {
        match spec_clicks_required(tool, t.layer) {
            None => (DigStatus::UnderTier, t),
            Some(need) => if t.damage + 1 >= need {
                (DigStatus::Broken, broken_tile(t))
            } else {
                (DigStatus::Damaged, damaged_tile(t))
            },
        }
    }
}

/// The tile after `k` strikes with `tool`.
pub open spec fn strikes(t: Tile, tool: Tool, k: nat) -> Tile
    decreases k,
{
    if k == 0 {
        t
    } else {
        strike_tile(strikes(t, tool, (k - 1) as nat), tool).1
    }
}

/// A dig inside the grid is one strike at the target tile; everything else
/// in the grid is left as it was.
pub proof fn law_dig_strikes_target(g: Grid, target: IVec2, tool: Tool)
    requires
        g.wf(),
        g.in_grid(target.x as int, target.y as int),
    ensures
        ({
            let t = g.tile_at(target.x as int, target.y as int);
            let i = g.index_of(target.x as int, target.y as int);
            &&& spec_dig(g, target, tool).0.status == strike_tile(t, tool).0
            &&& spec_dig(g, target, tool).1 == g.cells().update(i, strike_tile(t, tool).1)
        }),
{
    let t = g.tile_at(target.x as int, target.y as int);
    let i = g.index_of(target.x as int, target.y as int);
    g.lemma_index_in_range(target.x as int, target.y as int);
    if strike_tile(t, tool).1 == t {
        assert(g.cells().update(i, t) =~= g.cells());
    }
}

/// A fresh solid tile takes exactly `clicks_required` strikes to break: each
/// earlier strike adds one point of damage, the last one breaks it and frees
/// its ore.
pub proof fn law_strikes_to_break(t: Tile, tool: Tool)
    requires
        t.solid,
        t.damage == 0,
        spec_clicks_required(tool, t.layer) is Some,
    ensures
        ({
            let n = spec_clicks_required(tool, t.layer)->0 as nat;
            &&& forall|k: nat| k < n ==> (#[trigger] strikes(t, tool, k)).solid && strikes(t, tool, k).damage == k
            &&& forall|k: nat| k + 1 < n ==> strike_tile(#[trigger] strikes(t, tool, k), tool).0 == DigStatus::Damaged
            &&& strike_tile(strikes(t, tool, (n - 1) as nat), tool).0 == DigStatus::Broken
            &&& strikes(t, tool, n) == broken_tile(t)
        }),
{
    reveal_with_fuel(strikes, 4);
    let n = spec_clicks_required(tool, t.layer)->0 as nat;
    assert(1 <= n <= 3);
    assert(strikes(t, tool, 1) == strike_tile(t, tool).1);
    assert(strikes(t, tool, 2) == strike_tile(strikes(t, tool, 1), tool).1);
    assert(strikes(t, tool, 3) == strike_tile(strikes(t, tool, 2), tool).1);
    assert forall|k: nat| k < n implies (#[trigger] strikes(t, tool, k)).solid && strikes(t, tool, k).damage == k by {
        if k == 1 {
            assert(strikes(t, tool, 1) == strike_tile(strikes(t, tool, 0), tool).1);
        }
        if k == 2 {
            assert(strikes(t, tool, 2) == strike_tile(strikes(t, tool, 1), tool).1);
        }
    }
    assert forall|k: nat| k + 1 < n implies strike_tile(#[trigger] strikes(t, tool, k), tool).0 == DigStatus::Damaged by {
        assert(strikes(t, tool, k).solid && strikes(t, tool, k).damage == k);
    }
}

/// A strike that breaks a tile hands out exactly the ore the tile held,
/// whatever damage it had taken and whichever tool struck it, and leaves the
/// cell empty with no ore; every other strike frees no ore.
pub proof fn law_broken_tile_frees_its_ore(g: Grid, target: IVec2, tool: Tool)
    requires
        g.wf(),
    ensures
        ({
            let x = target.x as int;
            let y = target.y as int;
            let (r, cells) = spec_dig(g, target, tool);
            &&& r.status == DigStatus::Broken ==> {
                &&& g.in_grid(x, y)
                &&& g.tile_at(x, y).solid
                &&& r.ore == g.tile_at(x, y).ore
                &&& !cells[g.index_of(x, y)].solid
                &&& cells[g.index_of(x, y)].ore is None
            }
            &&& r.status != DigStatus::Broken ==> r.ore is None
        }),
{
    let x = target.x as int;
    let y = target.y as int;
    if g.in_grid(x, y) {
        g.lemma_index_in_range(x, y);
    }
}

} // verus!
