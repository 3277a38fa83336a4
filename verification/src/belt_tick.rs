//! One tick of the belts: applying the advances to the items they carry.

use vstd::prelude::*;
use crate::belt::BeltTile;
use crate::coords::IVec2;
use crate::items::ItemKind;

verus! {

/// No two belt tiles share a position.
pub open spec fn tiles_unique(belts: Seq<(IVec2, BeltTile)>) -> bool {
    forall|i: int, j: int|
        0 <= i < belts.len() && 0 <= j < belts.len() && i != j ==> #[trigger] belts[i].0 != #[trigger] belts[j].0
}

/// No two moves share a destination.
pub open spec fn destinations_unique(moves: Seq<(IVec2, IVec2)>) -> bool {
    forall|i: int, j: int|
        0 <= i < moves.len() && 0 <= j < moves.len() && i != j ==> #[trigger] moves[i].1 != #[trigger] moves[j].1
}

pub open spec fn has_tile(belts: Seq<(IVec2, BeltTile)>, p: IVec2) -> bool {
    exists|i: int| 0 <= i < belts.len() && #[trigger] belts[i].0 == p
}

/// The item on the belt at `p` before the tick (`None` where there is no
/// belt).
pub open spec fn item_on(belts: Seq<(IVec2, BeltTile)>, p: IVec2) -> Option<ItemKind> {
    if has_tile(belts, p) {
        belts[choose|i: int| 0 <= i < belts.len() && #[trigger] belts[i].0 == p].1.item
    } else {
        None
    }
}

/// A move is carried out when both ends are belts and its source holds an
/// item. A move off the belts is left to the caller (the item stays).
pub open spec fn move_applies(belts: Seq<(IVec2, BeltTile)>, mv: (IVec2, IVec2)) -> bool {
    has_tile(belts, mv.1) && item_on(belts, mv.0) is Some
}

/// The item on the belt at `p` after the tick. All moves happen at once: a
/// belt receiving an item holds it, a belt whose item left and that receives
/// none is empty, any other belt keeps its item.
pub open spec fn item_after(belts: Seq<(IVec2, BeltTile)>, moves: Seq<(IVec2, IVec2)>, p: IVec2) -> Option<ItemKind> {
    if exists|k: int| 0 <= k < moves.len() && #[trigger] moves[k].1 == p && move_applies(belts, moves[k]) {
        item_on(belts, moves[choose|k: int| 0 <= k < moves.len() && #[trigger] moves[k].1 == p && move_applies(belts, moves[k])].0)
    } else if exists|k: int| 0 <= k < moves.len() && #[trigger] moves[k].0 == p && move_applies(belts, moves[k]) {
        None
    } else {
        item_on(belts, p)
    }
}

fn item_lookup(belts: &[(IVec2, BeltTile)], p: IVec2) -> (r: Option<ItemKind>)
    requires
        tiles_unique(belts@),
    ensures
        r == item_on(belts@, p),
        r is Some ==> has_tile(belts@, p),
{
    let mut i: usize = 0;
    while i < belts.len()
        invariant
            0 <= i <= belts@.len(),
            tiles_unique(belts@),
            forall|k: int| 0 <= k < i ==> #[trigger] belts@[k].0 != p,
        decreases belts@.len() - i,
    {
        if belts[i].0 == p {
            proof {
                assert(belts@[i as int].0 == p);
                let j = choose|j: int| 0 <= j < belts@.len() && #[trigger] belts@[j].0 == p;
                assert(j == i);
            }
            return belts[i].1.item;
        }
        i = i + 1;
    }
    None
}

fn tile_exists(belts: &[(IVec2, BeltTile)], p: IVec2) -> (b: bool)
    ensures
        b == has_tile(belts@, p),
{
    let mut i: usize = 0;
    while i < belts.len()
        invariant
            0 <= i <= belts@.len(),
            forall|k: int| 0 <= k < i ==> #[trigger] belts@[k].0 != p,
        decreases belts@.len() - i,
    {
        if belts[i].0 == p {
            assert(belts@[i as int].0 == p);
            return true;
        }
        i = i + 1;
    }
    false
}

/// The item `mv` carries, when it is carried out.
fn applied_item(belts: &[(IVec2, BeltTile)], mv: (IVec2, IVec2)) -> (r: Option<ItemKind>)
    requires
        tiles_unique(belts@),
    ensures
        r is Some <==> move_applies(belts@, mv),
        r is Some ==> r == item_on(belts@, mv.0),
{
    if !tile_exists(belts, mv.1) {
        return None;
    }
    item_lookup(belts, mv.0)
}

fn new_item(belts: &[(IVec2, BeltTile)], moves: &[(IVec2, IVec2)], p: IVec2) -> (r: Option<ItemKind>)
    requires
        tiles_unique(belts@),
        destinations_unique(moves@),
    ensures
        r == item_after(belts@, moves@, p),
{
    let mut k: usize = 0;
    while k < moves.len()
        invariant
            0 <= k <= moves@.len(),
            tiles_unique(belts@),
            destinations_unique(moves@),
            forall|j: int| 0 <= j < k ==> !(#[trigger] moves@[j].1 == p && move_applies(belts@, moves@[j])),
        decreases moves@.len() - k,
    {
        if moves[k].1 == p {
            match applied_item(belts, moves[k]) {
                Some(item) => {
                    proof {
                        assert(moves@[k as int].1 == p && move_applies(belts@, moves@[k as int]));
                        let c = choose|c: int| 0 <= c < moves@.len() && #[trigger] moves@[c].1 == p && move_applies(belts@, moves@[c]);
                        assert(c == k);
                    }
                    return Some(item);
                },
                None => {},
            }
        }
        k = k + 1;
    }
    let mut k: usize = 0;
    while k < moves.len()
        invariant
            0 <= k <= moves@.len(),
            tiles_unique(belts@),
            forall|j: int| 0 <= j < moves@.len() ==> !(#[trigger] moves@[j].1 == p && move_applies(belts@, moves@[j])),
            forall|j: int| 0 <= j < k ==> !(#[trigger] moves@[j].0 == p && move_applies(belts@, moves@[j])),
        decreases moves@.len() - k,
    {
        if moves[k].0 == p {
            if applied_item(belts, moves[k]).is_some() {
                assert(moves@[k as int].0 == p && move_applies(belts@, moves@[k as int]));
                return None;
            }
        }
        k = k + 1;
    }
    item_lookup(belts, p)
}

/// Carries out one tick of belt `moves` (as computed by
/// `compute_belt_advances`) on the belts: every belt keeps its position and
/// direction, and its item becomes `item_after`.
pub fn apply_belt_moves(belts: &[(IVec2, BeltTile)], moves: &[(IVec2, IVec2)]) -> (out: Vec<(IVec2, BeltTile)>)
    requires
        tiles_unique(belts@),
        destinations_unique(moves@),
    ensures
        out@.len() == belts@.len(),
        forall|i: int| 0 <= i < belts@.len() ==> {
            &&& (#[trigger] out@[i]).0 == belts@[i].0
            &&& out@[i].1.dir == belts@[i].1.dir
            &&& out@[i].1.item == item_after(belts@, moves@, belts@[i].0)
        },
{
    let mut out: Vec<(IVec2, BeltTile)> = Vec::new();
    let mut i: usize = 0;
    while i < belts.len()
        invariant
            0 <= i <= belts@.len(),
            tiles_unique(belts@),
            destinations_unique(moves@),
            out@.len() == i,
            forall|j: int| 0 <= j < i ==> {
                &&& (#[trigger] out@[j]).0 == belts@[j].0
                &&& out@[j].1.dir == belts@[j].1.dir
                &&& out@[j].1.item == item_after(belts@, moves@, belts@[j].0)
            },
        decreases belts@.len() - i,
    {
        let (p, t) = belts[i];
        let item = new_item(belts, moves, p);
        out.push((p, BeltTile { item, dir: t.dir }));
        i = i + 1;
    }
    out
}

/// A belt that an item is carried onto holds exactly that item after the
/// tick.
pub proof fn law_moved_item_arrives(belts: Seq<(IVec2, BeltTile)>, moves: Seq<(IVec2, IVec2)>, k: int)
    requires
        destinations_unique(moves),
        0 <= k < moves.len(),
        move_applies(belts, moves[k]),
    ensures
        item_after(belts, moves, moves[k].1) == item_on(belts, moves[k].0),
        item_after(belts, moves, moves[k].1) is Some,
{
    let p = moves[k].1;
    assert(moves[k].1 == p && move_applies(belts, moves[k]));
    let c = choose|c: int| 0 <= c < moves.len() && #[trigger] moves[c].1 == p && move_applies(belts, moves[c]);
    assert(c == k);
}

/// A belt whose item was carried away, and onto which nothing was carried,
/// is empty after the tick.
pub proof fn law_vacated_belt_empties(belts: Seq<(IVec2, BeltTile)>, moves: Seq<(IVec2, IVec2)>, k: int)
    requires
        0 <= k < moves.len(),
        move_applies(belts, moves[k]),
        forall|j: int| 0 <= j < moves.len() ==> !(#[trigger] moves[j].1 == moves[k].0 && move_applies(belts, moves[j])),
    ensures
        item_after(belts, moves, moves[k].0) is None,
{
    assert(moves[k].0 == moves[k].0 && move_applies(belts, moves[k]));
}

} // verus!
