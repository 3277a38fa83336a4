use vstd::prelude::*;
use crate::coords::IVec2;
use crate::items::ItemKind;

verus! {

/// Cardinal direction a belt points in, clockwise from North.
#[derive(Clone, Copy, Debug, PartialEq, Eq, Hash, PartialOrd, Ord, Structural)]
pub enum BeltDir {
    North,
    East,
    South,
    West,
}

pub open spec fn spec_delta(d: BeltDir) -> IVec2 {
    match d {
        BeltDir::North => IVec2 { x: 0, y: -1i32 },
        BeltDir::East => IVec2 { x: 1, y: 0 },
        BeltDir::South => IVec2 { x: 0, y: 1 },
        BeltDir::West => IVec2 { x: -1i32, y: 0 },
    }
}

pub open spec fn spec_opposite(d: BeltDir) -> BeltDir {
    match d {
        BeltDir::North => BeltDir::South,
        BeltDir::South => BeltDir::North,
        BeltDir::East => BeltDir::West,
        BeltDir::West => BeltDir::East,
    }
}

pub open spec fn spec_rotate_cw(d: BeltDir) -> BeltDir {
    match d {
        BeltDir::North => BeltDir::East,
        BeltDir::East => BeltDir::South,
        BeltDir::South => BeltDir::West,
        BeltDir::West => BeltDir::North,
    }
}

impl BeltDir {
    /// Tile-space step: positive `y` is south (deeper).
    pub fn delta(self) -> (v: IVec2)
        ensures
            v == spec_delta(self),
    {
        match self {
            BeltDir::North => IVec2::new(0, -1),
            BeltDir::East => IVec2::new(1, 0),
            BeltDir::South => IVec2::new(0, 1),
            BeltDir::West => IVec2::new(-1, 0),
        }
    }

    pub fn opposite(self) -> (d: BeltDir)
        ensures
            d == spec_opposite(self),
    {
        match self {
            BeltDir::North => BeltDir::South,
            BeltDir::South => BeltDir::North,
            BeltDir::East => BeltDir::West,
            BeltDir::West => BeltDir::East,
        }
    }

    /// North -> East -> South -> West -> North.
    pub fn rotate_cw(self) -> (d: BeltDir)
        ensures
            d == spec_rotate_cw(self),
    {
        match self {
            BeltDir::North => BeltDir::East,
            BeltDir::East => BeltDir::South,
            BeltDir::South => BeltDir::West,
            BeltDir::West => BeltDir::North,
        }
    }
}

/// One belt tile in the world: its direction and the item riding on it.
#[derive(Clone, Copy, Debug, PartialEq, Eq, Structural)]
pub struct BeltTile {
    pub item: Option<ItemKind>,
    pub dir: BeltDir,
}

impl BeltTile {
    pub fn new(dir: BeltDir) -> (t: BeltTile)
        ensures
            t.item is None,
            t.dir == dir,
    {
        BeltTile { item: None, dir }
    }
}

/// How a belt tile is drawn: straight, or one of four corner shapes.
#[derive(Clone, Copy, Debug, PartialEq, Eq, Structural)]
pub enum BeltVisual {
    Straight,
    /// Fed from the south and leaving east (or a rotation of it).
    CornerSE,
    CornerNE,
    CornerSW,
    CornerNW,
}

/// Stepping from `pos` in direction `d` stays within `i32` coordinates.
pub open spec fn step_in_range(pos: IVec2, d: BeltDir) -> bool {
    &&& i32::MIN <= pos.x + spec_delta(d).x <= i32::MAX
    &&& i32::MIN <= pos.y + spec_delta(d).y <= i32::MAX
}

pub open spec fn spec_next_tile(pos: IVec2, d: BeltDir) -> IVec2 {
    IVec2 { x: (pos.x + spec_delta(d).x) as i32, y: (pos.y + spec_delta(d).y) as i32 }
}

/// The tile a belt at `pos` facing `dir` hands its item to.
pub fn next_tile(pos: IVec2, dir: BeltDir) -> (t: IVec2)
    requires
        step_in_range(pos, dir),
    ensures
        t == spec_next_tile(pos, dir),
        t.x == pos.x + spec_delta(dir).x,
        t.y == pos.y + spec_delta(dir).y,
{
    let d = dir.delta();
    IVec2::new(pos.x + d.x, pos.y + d.y)
}

/// Whether `p` occurs in `s`.
fn contains_pos(s: &[IVec2], p: IVec2) -> (b: bool)
    ensures
        b == s@.contains(p),
{
    let mut i: usize = 0;
    while i < s.len()
        invariant
            0 <= i <= s@.len(),
            forall|k: int| 0 <= k < i ==> s@[k] != p,
        decreases s@.len() - i,
    {
        if s[i] == p {
            assert(s@[i as int] == p);
            return true;
        }
        i = i + 1;
    }
    false
}

/// A belt may go on `tile` when the caller found it to be empty floor inside
/// the grid and nothing (belt, shop, smelter) already occupies it.
pub fn can_place_belt(tile: IVec2, in_bounds_and_floor: bool, occupied_tiles: &[IVec2]) -> (b: bool)
    ensures
        b == (in_bounds_and_floor && !occupied_tiles@.contains(tile)),
{
    in_bounds_and_floor && !contains_pos(occupied_tiles, tile)
}

/// Whether `a` and `b` lie on different axes (one vertical, one horizontal).
pub open spec fn perpendicular(a: BeltDir, b: BeltDir) -> bool {
    match a {
        BeltDir::North | BeltDir::South => b == BeltDir::East || b == BeltDir::West,
        BeltDir::East | BeltDir::West => b == BeltDir::North || b == BeltDir::South,
    }
}

pub open spec fn spec_belt_visual_kind(self_dir: BeltDir, feeder_dir: Option<BeltDir>) -> BeltVisual {
    match feeder_dir {
        None => BeltVisual::Straight,
        Some(fd) => match (self_dir, fd) {
            (BeltDir::East, BeltDir::North) => BeltVisual::CornerSE,
            (BeltDir::East, BeltDir::South) => BeltVisual::CornerNE,
            (BeltDir::West, BeltDir::North) => BeltVisual::CornerSW,
            (BeltDir::West, BeltDir::South) => BeltVisual::CornerNW,
            (BeltDir::North, BeltDir::East) => BeltVisual::CornerNW,
            (BeltDir::North, BeltDir::West) => BeltVisual::CornerNE,
            (BeltDir::South, BeltDir::East) => BeltVisual::CornerSW,
            (BeltDir::South, BeltDir::West) => BeltVisual::CornerSE,
            _ => BeltVisual::Straight,
        },
    }
}

/// The shape of a belt facing `self_dir` whose feeder (if any) faces
/// `feeder_dir`: a corner when the feeder is perpendicular, else straight.
pub fn belt_visual_kind(self_dir: BeltDir, feeder_dir: Option<BeltDir>) -> (v: BeltVisual)
    ensures
        v == spec_belt_visual_kind(self_dir, feeder_dir),
        feeder_dir matches Some(fd) && perpendicular(self_dir, fd) ==> v != BeltVisual::Straight,
        (feeder_dir is None || !perpendicular(self_dir, feeder_dir->0)) ==> v == BeltVisual::Straight,
{
    let fd = match feeder_dir {
        Some(fd) => fd,
        None => return BeltVisual::Straight,
    };
    let perp = match (self_dir, fd) {
        (BeltDir::East, BeltDir::North) | (BeltDir::East, BeltDir::South) => true,
        (BeltDir::West, BeltDir::North) | (BeltDir::West, BeltDir::South) => true,
        (BeltDir::North, BeltDir::East) | (BeltDir::North, BeltDir::West) => true,
        (BeltDir::South, BeltDir::East) | (BeltDir::South, BeltDir::West) => true,
        _ => false,
    };
    if !perp {
        return BeltVisual::Straight;
    }
    match (self_dir, fd) {
        (BeltDir::East, BeltDir::North) => BeltVisual::CornerSE,
        (BeltDir::East, BeltDir::South) => BeltVisual::CornerNE,
        (BeltDir::West, BeltDir::North) => BeltVisual::CornerSW,
        (BeltDir::West, BeltDir::South) => BeltVisual::CornerNW,
        (BeltDir::North, BeltDir::East) => BeltVisual::CornerNW,
        (BeltDir::North, BeltDir::West) => BeltVisual::CornerNE,
        (BeltDir::South, BeltDir::East) => BeltVisual::CornerSW,
        (BeltDir::South, BeltDir::West) => BeltVisual::CornerSE,
        _ => BeltVisual::Straight,
    }
}

// ---------------------------------------------------------------------------
// Belt advance: which items move this tick.
// ---------------------------------------------------------------------------

/// No two belts share a position.
pub open spec fn positions_unique(belts: Seq<(IVec2, BeltDir)>) -> bool {
    forall|i: int, j: int|
        0 <= i < belts.len() && 0 <= j < belts.len() && i != j ==> #[trigger] belts[i].0 != #[trigger] belts[j].0
}

/// Every belt can hand its item on without leaving `i32` coordinates.
pub open spec fn steps_in_range(belts: Seq<(IVec2, BeltDir)>) -> bool {
    forall|i: int| 0 <= i < belts.len() ==> step_in_range(#[trigger] belts[i].0, belts[i].1)
}

pub open spec fn has_belt(belts: Seq<(IVec2, BeltDir)>, p: IVec2) -> bool {
    exists|i: int| 0 <= i < belts.len() && #[trigger] belts[i].0 == p
}

/// Direction of the belt at `p` (meaningful when `has_belt(belts, p)`).
pub open spec fn belt_dir_at(belts: Seq<(IVec2, BeltDir)>, p: IVec2) -> BeltDir {
    belts[choose|i: int| 0 <= i < belts.len() && #[trigger] belts[i].0 == p].1
}

/// Each belt holding an item wants to hand it to its next tile.
pub open spec fn intended_moves(belts: Seq<(IVec2, BeltDir)>, items: Seq<IVec2>) -> Map<IVec2, IVec2> {
    Map::new(
        |p: IVec2| has_belt(belts, p) && items.contains(p),
        |p: IVec2| spec_next_tile(p, belt_dir_at(belts, p)),
    )
}

/// The item on `q` wants to move onto a tile whose item wants to move back
/// onto `q`: two loaded belts facing each other.
pub open spec fn faces_back(m: Map<IVec2, IVec2>, q: IVec2) -> bool {
    m.dom().contains(q) && m.dom().contains(m[q]) && m[m[q]] == q
}

/// Following the intended moves from `q` for at most `fuel` steps meets an
/// item that cannot get out of the way: one that wants no move, or one of two
/// loaded belts facing each other.
pub open spec fn chain_blocked(m: Map<IVec2, IVec2>, items: Seq<IVec2>, q: IVec2, fuel: nat) -> bool
    decreases fuel,
{
    if !m.dom().contains(q) {
        items.contains(q)
    } else if faces_back(m, q) {
        true
    } else if fuel == 0 {
        false
    } else {
        chain_blocked(m, items, m[q], (fuel - 1) as nat)
    }
}

/// The item on `p` can move this tick: its chain of intended moves either
/// reaches a tile that will be free, or closes into a loop of three or more
/// belts that rotates in lockstep. Two loaded belts facing each other stall,
/// and so does every chain running into them. The chain is followed for
/// `belts.len()` steps, enough to leave the set of belts or to have gone
/// round a loop.
pub open spec fn advances(belts: Seq<(IVec2, BeltDir)>, items: Seq<IVec2>, p: IVec2) -> bool {
    let m = intended_moves(belts, items);
    m.dom().contains(p) && !chain_blocked(m, items, m[p], belts.len())
}

/// Order on tile positions: by `x`, then by `y`.
pub open spec fn key_lt(a: IVec2, b: IVec2) -> bool {
    a.x < b.x || (a.x == b.x && a.y < b.y)
}

/// `mv` is applied this tick: its source advances, its destination is the
/// source's next tile, and no advancing source ordered before it targets the
/// same destination.
pub open spec fn is_belt_move(belts: Seq<(IVec2, BeltDir)>, items: Seq<IVec2>, mv: (IVec2, IVec2)) -> bool {
    let m = intended_moves(belts, items);
    &&& advances(belts, items, mv.0)
    &&& mv.1 == m[mv.0]
    &&& forall|q: IVec2| #[trigger] advances(belts, items, q) && m[q] == mv.1 ==> !key_lt(q, mv.0)
}

/// Sources of the moves are strictly increasing under `key_lt`.
pub open spec fn sorted_by_source(s: Seq<(IVec2, IVec2)>) -> bool {
    forall|i: int, j: int| 0 <= i < j < s.len() ==> key_lt(#[trigger] s[i].0, #[trigger] s[j].0)
}

/// `moves` lists exactly the entries of `m`, each source once.
pub open spec fn represents(moves: Seq<(IVec2, IVec2)>, m: Map<IVec2, IVec2>) -> bool {
    &&& forall|k: int| 0 <= k < moves.len() ==> #[trigger] m.dom().contains(moves[k].0) && m[moves[k].0] == moves[k].1
    &&& forall|p: IVec2| #[trigger] m.dom().contains(p) ==> exists|k: int| 0 <= k < moves.len() && #[trigger] moves[k].0 == p
    &&& forall|i: int, j: int| 0 <= i < moves.len() && 0 <= j < moves.len() && i != j ==> #[trigger] moves[i].0 != #[trigger] moves[j].0
}

proof fn lemma_belt_dir_at(belts: Seq<(IVec2, BeltDir)>, i: int)
    requires
        positions_unique(belts),
        0 <= i < belts.len(),
    ensures
        has_belt(belts, belts[i].0),
        belt_dir_at(belts, belts[i].0) == belts[i].1,
{
    assert(belts[i].0 == belts[i].0);
    let j = choose|j: int| 0 <= j < belts.len() && #[trigger] belts[j].0 == belts[i].0;
    assert(j == i);
}

/// The intended moves, one per belt holding an item, in belt order.
fn intended_list(belts: &[(IVec2, BeltDir)], items: &[IVec2]) -> (moves: Vec<(IVec2, IVec2)>)
    requires
        positions_unique(belts@),
        steps_in_range(belts@),
    ensures
        represents(moves@, intended_moves(belts@, items@)),
{
    let ghost m = intended_moves(belts@, items@);
    let mut moves: Vec<(IVec2, IVec2)> = Vec::new();
    let ghost mut src: Seq<int> = Seq::empty();
    let mut i: usize = 0;
    while i < belts.len()
        invariant
            0 <= i <= belts@.len(),
            positions_unique(belts@),
            steps_in_range(belts@),
            m == intended_moves(belts@, items@),
            src.len() == moves@.len(),
            forall|k: int| 0 <= k < src.len() ==> 0 <= #[trigger] src[k] < i && belts@[src[k]].0 == moves@[k].0,
            forall|a: int, b: int| 0 <= a < b < src.len() ==> #[trigger] src[a] < #[trigger] src[b],
            forall|k: int| 0 <= k < moves@.len() ==> #[trigger] m.dom().contains(moves@[k].0) && m[moves@[k].0] == moves@[k].1,
            forall|j: int| 0 <= j < i && items@.contains(#[trigger] belts@[j].0) ==> exists|k: int| 0 <= k < moves@.len() && #[trigger] moves@[k].0 == belts@[j].0,
        decreases belts@.len() - i,
    {
        let (p, d) = belts[i];
        let ghost old_moves = moves@;
        let has_item = contains_pos(items, p);
        if has_item {
            proof {
                lemma_belt_dir_at(belts@, i as int);
                assert(belts@[i as int].0 == p);
            }
            let to = next_tile(p, d);
            moves.push((p, to));
            proof {
                src = src.push(i as int);
                assert(moves@[moves@.len() - 1].0 == p);
                assert(m.dom().contains(p));
                assert(m[p] == to);
                assert forall|k: int| 0 <= k < moves@.len() implies #[trigger] m.dom().contains(moves@[k].0) && m[moves@[k].0] == moves@[k].1 by {
                    if k < old_moves.len() {
                        assert(moves@[k] == old_moves[k]);
                    }
                }
            }
        }
        proof {
            assert forall|j: int| 0 <= j < i + 1 && items@.contains(#[trigger] belts@[j].0) implies exists|k: int| 0 <= k < moves@.len() && #[trigger] moves@[k].0 == belts@[j].0 by {
                if j < i {
                    let k = choose|k: int| 0 <= k < old_moves.len() && #[trigger] old_moves[k].0 == belts@[j].0;
                    assert(moves@[k] == old_moves[k]);
                } else {
                    assert(moves@[moves@.len() - 1].0 == belts@[j].0);
                }
            }
        }
        i = i + 1;
    }
    proof {
        assert forall|p: IVec2| #[trigger] m.dom().contains(p) implies exists|k: int| 0 <= k < moves@.len() && #[trigger] moves@[k].0 == p by {
            let j = choose|j: int| 0 <= j < belts@.len() && #[trigger] belts@[j].0 == p;
            assert(items@.contains(belts@[j].0));
        }
        assert forall|a: int, b: int| 0 <= a < moves@.len() && 0 <= b < moves@.len() && a != b implies #[trigger] moves@[a].0 != #[trigger] moves@[b].0 by {
            if a < b {
                assert(src[a] < src[b]);
            } else {
                assert(src[b] < src[a]);
            }
            assert(belts@[src[a]].0 != belts@[src[b]].0);
        }
    }
    moves
}

/// Looks up the intended destination of `q`.
fn lookup_move(moves: &Vec<(IVec2, IVec2)>, q: IVec2, Ghost(m): Ghost<Map<IVec2, IVec2>>) -> (r: Option<IVec2>)
    requires
        represents(moves@, m),
    ensures
        r == if m.dom().contains(q) { Some(m[q]) } else { None::<IVec2> },
{
    let mut k: usize = 0;
    while k < moves.len()
        invariant
            0 <= k <= moves@.len(),
            represents(moves@, m),
            forall|j: int| 0 <= j < k ==> #[trigger] moves@[j].0 != q,
        decreases moves@.len() - k,
    {
        if moves[k].0 == q {
            assert(m.dom().contains(moves@[k as int].0));
            return Some(moves[k].1);
        }
        k = k + 1;
    }
    proof {
        if m.dom().contains(q) {
            let j = choose|j: int| 0 <= j < moves@.len() && #[trigger] moves@[j].0 == q;
            assert(moves@[j].0 != q);
        }
    }
    None
}

/// Executes `chain_blocked` for the map listed by `moves`.
fn walk_blocked(moves: &Vec<(IVec2, IVec2)>, items: &[IVec2], start: IVec2, fuel: usize, Ghost(m): Ghost<Map<IVec2, IVec2>>) -> (b: bool)
    requires
        represents(moves@, m),
    ensures
        b == chain_blocked(m, items@, start, fuel as nat),
{
    let mut cur = start;
    let mut f = fuel;
    loop
        invariant
            represents(moves@, m),
            chain_blocked(m, items@, start, fuel as nat) == chain_blocked(m, items@, cur, f as nat),
        decreases f,
    {
        match lookup_move(moves, cur, Ghost(m)) {
            None => {
                return contains_pos(items, cur);
            },
            Some(next) => {
                match lookup_move(moves, next, Ghost(m)) {
                    Some(back) => {
                        if back == cur {
                            return true;
                        }
                    },
                    None => {},
                }
                if f == 0 {
                    return false;
                }
                cur = next;
                f = f - 1;
            },
        }
    }
}

/// Distinct sources.
pub open spec fn sources_unique(s: Seq<(IVec2, IVec2)>) -> bool {
    forall|i: int, j: int| 0 <= i < s.len() && 0 <= j < s.len() && i != j ==> #[trigger] s[i].0 != #[trigger] s[j].0
}

/// Among `adv`, `mv` is the move with the least source for its destination.
pub open spec fn wins_destination(adv: Seq<(IVec2, IVec2)>, mv: (IVec2, IVec2)) -> bool {
    &&& adv.contains(mv)
    &&& forall|b: int| 0 <= b < adv.len() ==> !(key_lt(#[trigger] adv[b].0, mv.0) && adv[b].1 == mv.1)
}

/// The entries of `moves` whose chain is not blocked within `fuel` steps.
fn unblocked_moves(moves: &Vec<(IVec2, IVec2)>, items: &[IVec2], fuel: usize, Ghost(m): Ghost<Map<IVec2, IVec2>>) -> (adv: Vec<(IVec2, IVec2)>)
    requires
        represents(moves@, m),
    ensures
        sources_unique(adv@),
        forall|k: int| 0 <= k < adv@.len() ==> #[trigger] m.dom().contains(adv@[k].0) && m[adv@[k].0] == adv@[k].1
            && !chain_blocked(m, items@, adv@[k].1, fuel as nat),
        forall|p: IVec2| #[trigger] m.dom().contains(p) && !chain_blocked(m, items@, m[p], fuel as nat)
            ==> exists|k: int| 0 <= k < adv@.len() && #[trigger] adv@[k].0 == p,
{
    let mut adv: Vec<(IVec2, IVec2)> = Vec::new();
    let ghost mut src: Seq<int> = Seq::empty();
    let mut i: usize = 0;
    while i < moves.len()
        invariant
            0 <= i <= moves@.len(),
            represents(moves@, m),
            src.len() == adv@.len(),
            forall|k: int| 0 <= k < src.len() ==> 0 <= #[trigger] src[k] < i && moves@[src[k]] == adv@[k],
            forall|a: int, b: int| 0 <= a < b < src.len() ==> #[trigger] src[a] < #[trigger] src[b],
            forall|k: int| 0 <= k < adv@.len() ==> !chain_blocked(m, items@, #[trigger] adv@[k].1, fuel as nat),
            forall|j: int| 0 <= j < i && !chain_blocked(m, items@, #[trigger] moves@[j].1, fuel as nat)
                ==> exists|k: int| 0 <= k < adv@.len() && #[trigger] adv@[k].0 == moves@[j].0,
        decreases moves@.len() - i,
    {
        let mv = moves[i];
        let ghost old_adv = adv@;
        let blocked = walk_blocked(moves, items, mv.1, fuel, Ghost(m));
        if !blocked {
            adv.push(mv);
            proof {
                src = src.push(i as int);
            }
        }
        proof {
            assert forall|j: int| 0 <= j < i + 1 && !chain_blocked(m, items@, #[trigger] moves@[j].1, fuel as nat)
                implies exists|k: int| 0 <= k < adv@.len() && #[trigger] adv@[k].0 == moves@[j].0 by {
                if j < i {
                    let k = choose|k: int| 0 <= k < old_adv.len() && #[trigger] old_adv[k].0 == moves@[j].0;
                    assert(adv@[k] == old_adv[k]);
                } else {
                    assert(adv@[adv@.len() - 1].0 == moves@[j].0);
                }
            }
            assert forall|k: int| 0 <= k < adv@.len() implies !chain_blocked(m, items@, #[trigger] adv@[k].1, fuel as nat) by {
                if k < old_adv.len() {
                    assert(adv@[k] == old_adv[k]);
                }
            }
        }
        i = i + 1;
    }
    proof {
        assert forall|a: int, b: int| 0 <= a < adv@.len() && 0 <= b < adv@.len() && a != b implies #[trigger] adv@[a].0 != #[trigger] adv@[b].0 by {
            if a < b {
                assert(src[a] < src[b]);
            } else {
                assert(src[b] < src[a]);
            }
        }
        assert forall|k: int| 0 <= k < adv@.len() implies #[trigger] m.dom().contains(adv@[k].0) && m[adv@[k].0] == adv@[k].1
            && !chain_blocked(m, items@, adv@[k].1, fuel as nat) by {
            assert(moves@[src[k]] == adv@[k]);
        }
        assert forall|p: IVec2| #[trigger] m.dom().contains(p) && !chain_blocked(m, items@, m[p], fuel as nat)
            implies exists|k: int| 0 <= k < adv@.len() && #[trigger] adv@[k].0 == p by {
            let j = choose|j: int| 0 <= j < moves@.len() && #[trigger] moves@[j].0 == p;
            assert(!chain_blocked(m, items@, moves@[j].1, fuel as nat));
        }
    }
    adv
}

/// The entries of `adv` that win their destination.
fn destination_winners(adv: &Vec<(IVec2, IVec2)>) -> (w: Vec<(IVec2, IVec2)>)
    requires
        sources_unique(adv@),
    ensures
        sources_unique(w@),
        forall|mv: (IVec2, IVec2)| w@.contains(mv) <==> wins_destination(adv@, mv),
{
    let mut w: Vec<(IVec2, IVec2)> = Vec::new();
    let ghost mut src: Seq<int> = Seq::empty();
    let mut a: usize = 0;
    while a < adv.len()
        invariant
            0 <= a <= adv@.len(),
            sources_unique(adv@),
            src.len() == w@.len(),
            forall|k: int| 0 <= k < src.len() ==> 0 <= #[trigger] src[k] < a && adv@[src[k]] == w@[k],
            forall|x: int, y: int| 0 <= x < y < src.len() ==> #[trigger] src[x] < #[trigger] src[y],
            forall|k: int| 0 <= k < w@.len() ==> wins_destination(adv@, #[trigger] w@[k]),
            forall|j: int| 0 <= j < a && wins_destination(adv@, #[trigger] adv@[j]) ==> w@.contains(adv@[j]),
        decreases adv@.len() - a,
    {
        let mv = adv[a];
        let mut beaten = false;
        let mut b: usize = 0;
        while b < adv.len()
            invariant
                0 <= b <= adv@.len(),
                mv == adv@[a as int],
                !beaten ==> forall|c: int| 0 <= c < b ==> !(key_lt(#[trigger] adv@[c].0, mv.0) && adv@[c].1 == mv.1),
                beaten ==> !wins_destination(adv@, mv),
            decreases adv@.len() - b,
        {
            let other = adv[b];
            if !beaten && other.1 == mv.1 && (other.0.x < mv.0.x || (other.0.x == mv.0.x && other.0.y < mv.0.y)) {
                beaten = true;
            }
            b = b + 1;
        }
        let ghost old_w = w@;
        if !beaten {
            proof {
                assert(adv@.contains(mv)) by {
                    assert(adv@[a as int] == mv);
                }
            }
            w.push(mv);
            proof {
                src = src.push(a as int);
            }
        }
        proof {
            assert forall|k: int| 0 <= k < w@.len() implies wins_destination(adv@, #[trigger] w@[k]) by {
                if k < old_w.len() {
                    assert(w@[k] == old_w[k]);
                }
            }
            assert forall|j: int| 0 <= j < a + 1 && wins_destination(adv@, #[trigger] adv@[j]) implies w@.contains(adv@[j]) by {
                if j < a {
                    assert(old_w.contains(adv@[j]));
                    let k = choose|k: int| 0 <= k < old_w.len() && old_w[k] == adv@[j];
                    assert(w@[k] == old_w[k]);
                } else {
                    assert(w@[w@.len() - 1] == adv@[j]);
                }
            }
        }
        a = a + 1;
    }
    proof {
        assert forall|x: int, y: int| 0 <= x < w@.len() && 0 <= y < w@.len() && x != y implies #[trigger] w@[x].0 != #[trigger] w@[y].0 by {
            if x < y {
                assert(src[x] < src[y]);
            } else {
                assert(src[y] < src[x]);
            }
        }
        assert forall|mv: (IVec2, IVec2)| wins_destination(adv@, mv) implies w@.contains(mv) by {
            let j = choose|j: int| 0 <= j < adv@.len() && adv@[j] == mv;
            assert(wins_destination(adv@, adv@[j]));
        }
        assert forall|mv: (IVec2, IVec2)| w@.contains(mv) implies wins_destination(adv@, mv) by {
            let k = choose|k: int| 0 <= k < w@.len() && w@[k] == mv;
            assert(wins_destination(adv@, w@[k]));
        }
    }
    w
}

proof fn lemma_key_total(a: IVec2, b: IVec2)
    ensures
        a != b ==> key_lt(a, b) || key_lt(b, a),
        !(key_lt(a, b) && key_lt(b, a)),
        !key_lt(a, a),
{
}

/// Inserts `mv` into `r`, keeping sources strictly increasing.
fn insert_by_source(r: &mut Vec<(IVec2, IVec2)>, mv: (IVec2, IVec2))
    requires
        sorted_by_source(old(r)@),
        forall|k: int| 0 <= k < old(r)@.len() ==> #[trigger] old(r)@[k].0 != mv.0,
    ensures
        sorted_by_source(final(r)@),
        forall|x: (IVec2, IVec2)| final(r)@.contains(x) <==> (old(r)@.contains(x) || x == mv),
{
    let mut j: usize = 0;
    while j < r.len() && (r[j].0.x < mv.0.x || (r[j].0.x == mv.0.x && r[j].0.y < mv.0.y))
        invariant
            0 <= j <= r@.len(),
            r@ == old(r)@,
            forall|k: int| 0 <= k < j ==> key_lt(#[trigger] r@[k].0, mv.0),
        decreases r@.len() - j,
    {
        j = j + 1;
    }
    let ghost before = r@;
    assert(before == old(r)@);
    proof {
        if j < before.len() {
            lemma_key_total(before[j as int].0, mv.0);
            assert(key_lt(mv.0, before[j as int].0));
        }
    }
    r.insert(j, mv);
    proof {
        assert(r@ == before.insert(j as int, mv));
        assert forall|a: int, b: int| 0 <= a < b < r@.len() implies key_lt(#[trigger] r@[a].0, #[trigger] r@[b].0) by {
            if b < j {
                assert(r@[a] == before[a] && r@[b] == before[b]);
            } else if b == j {
                assert(r@[a] == before[a]);
            } else if a < j {
                assert(r@[a] == before[a] && r@[b] == before[b - 1]);
                assert(key_lt(before[a].0, mv.0));
                assert(key_lt(mv.0, before[j as int].0));
                if b - 1 > j {
                    assert(key_lt(before[j as int].0, before[b - 1].0));
                }
            } else if a == j {
                assert(r@[b] == before[b - 1]);
                if b - 1 > j {
                    assert(key_lt(before[j as int].0, before[b - 1].0));
                }
            } else {
                assert(r@[a] == before[a - 1] && r@[b] == before[b - 1]);
            }
        }
        assert forall|x: (IVec2, IVec2)| r@.contains(x) <==> (before.contains(x) || x == mv) by {
            if r@.contains(x) {
                let k = choose|k: int| 0 <= k < r@.len() && r@[k] == x;
                if k < j {
                    assert(before[k] == x);
                } else if k > j {
                    assert(before[k - 1] == x);
                }
            }
            if before.contains(x) {
                let k = choose|k: int| 0 <= k < before.len() && before[k] == x;
                if k < j {
                    assert(r@[k] == x);
                } else {
                    assert(r@[k + 1] == x);
                }
            }
            if x == mv {
                assert(r@[j as int] == x);
            }
        }
        assert(forall|x: (IVec2, IVec2)| r@.contains(x) <==> (old(r)@.contains(x) || x == mv));
    }
}

/// The entries of `w`, ordered by source.
fn sort_by_source(w: &Vec<(IVec2, IVec2)>) -> (r: Vec<(IVec2, IVec2)>)
    requires
        sources_unique(w@),
    ensures
        sorted_by_source(r@),
        forall|x: (IVec2, IVec2)| r@.contains(x) <==> w@.contains(x),
{
    let mut r: Vec<(IVec2, IVec2)> = Vec::new();
    let mut i: usize = 0;
    while i < w.len()
        invariant
            0 <= i <= w@.len(),
            sources_unique(w@),
            sorted_by_source(r@),
            forall|x: (IVec2, IVec2)| r@.contains(x) <==> exists|k: int| 0 <= k < i && w@[k] == x,
        decreases w@.len() - i,
    {
        let mv = w[i];
        proof {
            assert forall|k: int| 0 <= k < r@.len() implies #[trigger] r@[k].0 != mv.0 by {
                assert(r@.contains(r@[k]));
                let j = choose|j: int| 0 <= j < i && w@[j] == r@[k];
                assert(w@[j].0 != w@[i as int].0);
            }
        }
        let ghost old_r = r@;
        insert_by_source(&mut r, mv);
        proof {
            assert forall|x: (IVec2, IVec2)| r@.contains(x) <==> exists|k: int| 0 <= k < i + 1 && w@[k] == x by {
                if exists|k: int| 0 <= k < i + 1 && w@[k] == x {
                    let k = choose|k: int| 0 <= k < i + 1 && w@[k] == x;
                    if k < i {
                        assert(old_r.contains(x));
                    }
                }
                if old_r.contains(x) {
                    let k = choose|k: int| 0 <= k < i && w@[k] == x;
                    assert(0 <= k < i + 1 && w@[k] == x);
                }
                if x == mv {
                    assert(w@[i as int] == x);
                }
            }
        }
        i = i + 1;
    }
    proof {
        assert forall|x: (IVec2, IVec2)| r@.contains(x) <==> w@.contains(x) by {
            if w@.contains(x) {
                let k = choose|k: int| 0 <= k < w@.len() && w@[k] == x;
                assert(0 <= k < i && w@[k] == x);
            }
        }
    }
    r
}

/// The item moves to apply on one belt tick, as `(from, to)` pairs.
///
/// `belts` lists every belt (position and direction, one entry per position);
/// `items_present` lists the tiles that currently hold an item. Every belt
/// holding an item wants to pass it to its next tile. A move goes ahead when
/// its destination is vacated this tick: the destination starts empty, or its
/// own item moves on (a cascade), or the moves close into a loop of three or
/// more belts that rotates in lockstep. A chain that runs into an item which
/// does not move stalls as a whole; two loaded belts facing each other do not
/// move, and neither does a chain running into them. Destinations off the belt graph are included; the caller handles
/// that spillage. When several moves target one tile, only the one whose
/// source is least by (x, y) is kept. Moves come out ordered by source.
pub fn compute_belt_advances(belts: &[(IVec2, BeltDir)], items_present: &[IVec2]) -> (moves: Vec<(IVec2, IVec2)>)
    requires
        positions_unique(belts@),
        steps_in_range(belts@),
    ensures
        sorted_by_source(moves@),
        forall|mv: (IVec2, IVec2)| #[trigger] moves@.contains(mv) <==> is_belt_move(belts@, items_present@, mv),
{
    let ghost m = intended_moves(belts@, items_present@);
    let intended = intended_list(belts, items_present);
    let adv = unblocked_moves(&intended, items_present, belts.len(), Ghost(m));
    let w = destination_winners(&adv);
    let r = sort_by_source(&w);
    proof {
        assert forall|mv: (IVec2, IVec2)| r@.contains(mv) <==> is_belt_move(belts@, items_present@, mv) by {
            if wins_destination(adv@, mv) {
                let k = choose|k: int| 0 <= k < adv@.len() && adv@[k] == mv;
                assert(m.dom().contains(adv@[k].0));
                assert forall|q: IVec2| #[trigger] advances(belts@, items_present@, q) && m[q] == mv.1 implies !key_lt(q, mv.0) by {
                    let b = choose|b: int| 0 <= b < adv@.len() && #[trigger] adv@[b].0 == q;
                    assert(!(key_lt(adv@[b].0, mv.0) && adv@[b].1 == mv.1));
                }
            }
            if is_belt_move(belts@, items_present@, mv) {
                assert(m.dom().contains(mv.0));
                let k = choose|k: int| 0 <= k < adv@.len() && #[trigger] adv@[k].0 == mv.0;
                assert(adv@[k] == mv);
                assert forall|b: int| 0 <= b < adv@.len() implies !(key_lt(#[trigger] adv@[b].0, mv.0) && adv@[b].1 == mv.1) by {
                    assert(m.dom().contains(adv@[b].0));
                    assert(advances(belts@, items_present@, adv@[b].0));
                }
            }
        }
    }
    r
}

/// The direction of the belt at `p`, if there is one.
pub fn belt_at(belts: &[(IVec2, BeltDir)], p: IVec2) -> (r: Option<BeltDir>)
    requires
        positions_unique(belts@),
    ensures
        r == if has_belt(belts@, p) { Some(belt_dir_at(belts@, p)) } else { None::<BeltDir> },
{
    let mut i: usize = 0;
    while i < belts.len()
        invariant
            0 <= i <= belts@.len(),
            positions_unique(belts@),
            forall|k: int| 0 <= k < i ==> #[trigger] belts@[k].0 != p,
        decreases belts@.len() - i,
    {
        if belts[i].0 == p {
            proof {
                lemma_belt_dir_at(belts@, i as int);
            }
            return Some(belts[i].1);
        }
        i = i + 1;
    }
    None
}

/// The two directions perpendicular to `d`, in the order they are checked
/// for feeders: North then South for a horizontal belt, East then West for a
/// vertical one.
pub open spec fn feeder_candidates(d: BeltDir) -> (BeltDir, BeltDir) {
    match d {
        BeltDir::East | BeltDir::West => (BeltDir::North, BeltDir::South),
        BeltDir::North | BeltDir::South => (BeltDir::East, BeltDir::West),
    }
}

/// A neighbour feeds the belt at `pos` from the side when it sits one step
/// behind along `perp` and itself faces `perp`.
pub open spec fn feeds_from(belts: Seq<(IVec2, BeltDir)>, pos: IVec2, perp: BeltDir) -> bool {
    let n = spec_next_tile(pos, spec_opposite(perp));
    has_belt(belts, n) && belt_dir_at(belts, n) == perp
}

pub open spec fn spec_perpendicular_feeder(belts: Seq<(IVec2, BeltDir)>, pos: IVec2, self_dir: BeltDir) -> Option<BeltDir> {
    let (a, b) = feeder_candidates(self_dir);
    if feeds_from(belts, pos, a) {
        Some(a)
    } else if feeds_from(belts, pos, b) {
        Some(b)
    } else {
        None
    }
}

/// The direction of a belt feeding the belt at `pos` from the side, if any.
pub fn perpendicular_feeder(pos: IVec2, self_dir: BeltDir, belts: &[(IVec2, BeltDir)]) -> (r: Option<BeltDir>)
    requires
        positions_unique(belts@),
        step_in_range(pos, spec_opposite(feeder_candidates(self_dir).0)),
        step_in_range(pos, spec_opposite(feeder_candidates(self_dir).1)),
    ensures
        r == spec_perpendicular_feeder(belts@, pos, self_dir),
        r matches Some(d) ==> perpendicular(self_dir, d),
        r matches Some(d) ==> has_belt(belts@, tile_behind(pos, d)) && belt_dir_at(belts@, tile_behind(pos, d)) == d,
{
    proof {
        law_feeder_faces_into_belt(belts@, pos, self_dir);
    }
    let perps: [BeltDir; 2] = match self_dir {
        BeltDir::East | BeltDir::West => [BeltDir::North, BeltDir::South],
        BeltDir::North | BeltDir::South => [BeltDir::East, BeltDir::West],
    };
    let mut k: usize = 0;
    while k < 2
        invariant
            0 <= k <= 2,
            positions_unique(belts@),
            perps@ == seq![feeder_candidates(self_dir).0, feeder_candidates(self_dir).1],
            step_in_range(pos, spec_opposite(feeder_candidates(self_dir).0)),
            step_in_range(pos, spec_opposite(feeder_candidates(self_dir).1)),
            forall|j: int| 0 <= j < k ==> !feeds_from(belts@, pos, #[trigger] perps@[j]),
        decreases 2 - k,
    {
        let perp = perps[k];
        let n = next_tile(pos, perp.opposite());
        match belt_at(belts, n) {
            Some(nd) => {
                if nd == perp {
                    return Some(nd);
                }
            },
            None => {},
        }
        k = k + 1;
    }
    None
}

// ---------------------------------------------------------------------------
// Laws
// ---------------------------------------------------------------------------

/// Turning round twice gives back the same direction.
pub proof fn law_opposite_involution(d: BeltDir)
    ensures
        spec_opposite(spec_opposite(d)) == d,
        spec_delta(spec_opposite(d)).x == -spec_delta(d).x,
        spec_delta(spec_opposite(d)).y == -spec_delta(d).y,
{
}

/// Four clockwise turns give back the same direction; two give the opposite.
pub proof fn law_rotate_cw_cycle(d: BeltDir)
    ensures
        spec_rotate_cw(spec_rotate_cw(spec_rotate_cw(spec_rotate_cw(d)))) == d,
        spec_rotate_cw(spec_rotate_cw(d)) == spec_opposite(d),
{
}

/// Two belt moves of one tick never leave the same tile nor land on the same
/// tile, and each lands on the next tile of its source belt.
pub proof fn law_belt_moves_disjoint(belts: Seq<(IVec2, BeltDir)>, items: Seq<IVec2>, m1: (IVec2, IVec2), m2: (IVec2, IVec2))
    requires
        positions_unique(belts),
        is_belt_move(belts, items, m1),
        is_belt_move(belts, items, m2),
        m1 != m2,
    ensures
        m1.0 != m2.0,
        m1.1 != m2.1,
        has_belt(belts, m1.0) && m1.1 == spec_next_tile(m1.0, belt_dir_at(belts, m1.0)),
{
    let m = intended_moves(belts, items);
    assert(m.dom().contains(m1.0));
    if m1.1 == m2.1 {
        assert(advances(belts, items, m2.0));
        assert(!key_lt(m2.0, m1.0));
        assert(advances(belts, items, m1.0));
        assert(!key_lt(m1.0, m2.0));
        lemma_key_total(m1.0, m2.0);
    }
}

/// A strictly sorted sequence is determined by the set of its elements.
proof fn lemma_sorted_unique(a: Seq<(IVec2, IVec2)>, b: Seq<(IVec2, IVec2)>)
    requires
        sorted_by_source(a),
        sorted_by_source(b),
        forall|x: (IVec2, IVec2)| a.contains(x) <==> b.contains(x),
    ensures
        a == b,
    decreases a.len() + b.len(),
{
    if a.len() == 0 {
        if b.len() > 0 {
            assert(b.contains(b[0]));
        }
        assert(a =~= b);
    } else if b.len() == 0 {
        assert(a.contains(a[0]));
    } else {
        // The first elements are the least sources, hence equal.
        let x = a[0];
        let y = b[0];
        assert(a.contains(x));
        assert(b.contains(y));
        let j = choose|j: int| 0 <= j < b.len() && b[j] == x;
        let i = choose|i: int| 0 <= i < a.len() && a[i] == y;
        if j > 0 {
            assert(key_lt(b[0].0, b[j].0));
            if i > 0 {
                assert(key_lt(a[0].0, a[i].0));
                lemma_key_total(x.0, y.0);
            }
        }
        assert(x == y);
        let a2 = a.drop_first();
        let b2 = b.drop_first();
        assert forall|z: (IVec2, IVec2)| a2.contains(z) <==> b2.contains(z) by {
            if a2.contains(z) {
                let k = choose|k: int| 0 <= k < a2.len() && a2[k] == z;
                assert(a[k + 1] == z);
                assert(key_lt(a[0].0, a[k + 1].0));
                assert(b.contains(z));
                let k2 = choose|k2: int| 0 <= k2 < b.len() && b[k2] == z;
                if k2 == 0 {
                    lemma_key_total(z.0, z.0);
                }
                assert(b2[k2 - 1] == z);
            }
            if b2.contains(z) {
                let k = choose|k: int| 0 <= k < b2.len() && b2[k] == z;
                assert(b[k + 1] == z);
                assert(key_lt(b[0].0, b[k + 1].0));
                assert(a.contains(z));
                let k2 = choose|k2: int| 0 <= k2 < a.len() && a[k2] == z;
                if k2 == 0 {
                    lemma_key_total(z.0, z.0);
                }
                assert(a2[k2 - 1] == z);
            }
        }
        lemma_sorted_unique(a2, b2);
        assert(a =~= seq![x] + a2);
        assert(b =~= seq![y] + b2);
    }
}

/// The moves of a tick depend only on which belts exist (with their
/// directions) and which tiles hold items, not on the order in which either
/// is listed.
pub proof fn law_advances_order_independent(
    belts1: Seq<(IVec2, BeltDir)>,
    belts2: Seq<(IVec2, BeltDir)>,
    items1: Seq<IVec2>,
    items2: Seq<IVec2>,
    moves1: Seq<(IVec2, IVec2)>,
    moves2: Seq<(IVec2, IVec2)>,
)
    requires
        positions_unique(belts1),
        positions_unique(belts2),
        belts1.len() == belts2.len(),
        forall|e: (IVec2, BeltDir)| belts1.contains(e) <==> belts2.contains(e),
        forall|p: IVec2| items1.contains(p) <==> items2.contains(p),
        sorted_by_source(moves1),
        sorted_by_source(moves2),
        forall|mv: (IVec2, IVec2)| #[trigger] moves1.contains(mv) <==> is_belt_move(belts1, items1, mv),
        forall|mv: (IVec2, IVec2)| #[trigger] moves2.contains(mv) <==> is_belt_move(belts2, items2, mv),
    ensures
        moves1 == moves2,
{
    let m1 = intended_moves(belts1, items1);
    let m2 = intended_moves(belts2, items2);
    assert forall|p: IVec2| has_belt(belts1, p) == has_belt(belts2, p) && (has_belt(belts1, p) ==> belt_dir_at(belts1, p) == belt_dir_at(belts2, p)) by {
        if has_belt(belts1, p) {
            let i = choose|i: int| 0 <= i < belts1.len() && #[trigger] belts1[i].0 == p;
            lemma_belt_dir_at(belts1, i);
            assert(belts1.contains(belts1[i]));
            let j = choose|j: int| 0 <= j < belts2.len() && belts2[j] == belts1[i];
            lemma_belt_dir_at(belts2, j);
        }
        if has_belt(belts2, p) {
            let j = choose|j: int| 0 <= j < belts2.len() && #[trigger] belts2[j].0 == p;
            assert(belts2.contains(belts2[j]));
            let i = choose|i: int| 0 <= i < belts1.len() && belts1[i] == belts2[j];
            assert(belts1[i].0 == p);
        }
    }
    assert(m1 =~= m2);
    assert forall|q: IVec2, f: nat| chain_blocked(m1, items1, q, f) == chain_blocked(m2, items2, q, f) by {
        lemma_chain_blocked_same(m1, items1, items2, q, f);
    }
    assert forall|mv: (IVec2, IVec2)| moves1.contains(mv) <==> moves2.contains(mv) by {
        assert forall|q: IVec2| advances(belts1, items1, q) == advances(belts2, items2, q) by {
            if m1.dom().contains(q) {
                assert(chain_blocked(m1, items1, m1[q], belts1.len()) == chain_blocked(m2, items2, m2[q], belts2.len()));
            }
        }
        assert(is_belt_move(belts1, items1, mv) == is_belt_move(belts2, items2, mv));
    }
    lemma_sorted_unique(moves1, moves2);
}

proof fn lemma_chain_blocked_same(m: Map<IVec2, IVec2>, items1: Seq<IVec2>, items2: Seq<IVec2>, q: IVec2, f: nat)
    requires
        forall|p: IVec2| items1.contains(p) <==> items2.contains(p),
    ensures
        chain_blocked(m, items1, q, f) == chain_blocked(m, items2, q, f),
    decreases f,
{
    if m.dom().contains(q) && f > 0 {
        lemma_chain_blocked_same(m, items1, items2, m[q], (f - 1) as nat);
    }
}

/// The tile one step behind `pos` against direction `d`: a belt there facing
/// `d` hands its item onto `pos`.
pub open spec fn tile_behind(pos: IVec2, d: BeltDir) -> IVec2 {
    IVec2 { x: (pos.x - spec_delta(d).x) as i32, y: (pos.y - spec_delta(d).y) as i32 }
}

/// The side feeder found for a belt is a belt sitting just behind `pos`
/// against its own direction and facing into `pos`, on a side perpendicular
/// to the belt, for vertical and horizontal belts alike; the result is that
/// feeder's own direction. When none is found, no perpendicular neighbour
/// faces into `pos`.
pub proof fn law_feeder_faces_into_belt(belts: Seq<(IVec2, BeltDir)>, pos: IVec2, self_dir: BeltDir)
    requires
        step_in_range(pos, spec_opposite(feeder_candidates(self_dir).0)),
        step_in_range(pos, spec_opposite(feeder_candidates(self_dir).1)),
    ensures
        spec_perpendicular_feeder(belts, pos, self_dir) matches Some(d) ==> {
            &&& perpendicular(self_dir, d)
            &&& has_belt(belts, tile_behind(pos, d))
            &&& belt_dir_at(belts, tile_behind(pos, d)) == d
        },
        spec_perpendicular_feeder(belts, pos, self_dir) is None ==> forall|d: BeltDir| perpendicular(self_dir, d)
            ==> !(has_belt(belts, tile_behind(pos, d)) && belt_dir_at(belts, tile_behind(pos, d)) == d),
{
    let (a, b) = feeder_candidates(self_dir);
    assert(spec_next_tile(pos, spec_opposite(a)) == tile_behind(pos, a));
    assert(spec_next_tile(pos, spec_opposite(b)) == tile_behind(pos, b));
}

/// The corner joining two sides of a tile.
pub open spec fn corner_joining(s1: BeltDir, s2: BeltDir) -> BeltVisual {
    let n = s1 == BeltDir::North || s2 == BeltDir::North;
    let e = s1 == BeltDir::East || s2 == BeltDir::East;
    if n && e {
        BeltVisual::CornerNE
    } else if n {
        BeltVisual::CornerNW
    } else if e {
        BeltVisual::CornerSE
    } else {
        BeltVisual::CornerSW
    }
}

/// A belt fed from the side is drawn as the corner joining the side its item
/// comes in from (the feeder's side, opposite to the feeder's direction) and
/// the side it leaves by (its own direction).
pub proof fn law_corner_joins_entry_and_exit(self_dir: BeltDir, feeder_dir: BeltDir)
    requires
        perpendicular(self_dir, feeder_dir),
    ensures
        spec_belt_visual_kind(self_dir, Some(feeder_dir)) == corner_joining(spec_opposite(feeder_dir), self_dir),
{
}

} // verus!
