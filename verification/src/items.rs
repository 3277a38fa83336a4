use vstd::prelude::*;

verus! {

/// The three ores. Variant order is significant: it fixes the order in which
/// ores are listed and stored.
#[derive(Clone, Copy, Debug, PartialEq, Eq, Hash, PartialOrd, Ord, Structural)]
pub enum OreKind {
    Copper,
    Silver,
    Gold,
}

/// Anything a player can carry: a raw ore or a smelted bar of that ore.
#[derive(Clone, Copy, Debug, PartialEq, Eq, Hash, PartialOrd, Ord, Structural)]
pub enum ItemKind {
    Ore(OreKind),
    Bar(OreKind),
}

/// Every ore, in variant order.
pub fn all_ores() -> (v: [OreKind; 3])
    ensures
        v@ == seq![OreKind::Copper, OreKind::Silver, OreKind::Gold],
{
    [OreKind::Copper, OreKind::Silver, OreKind::Gold]
}

/// Every item: the three ores, then the three bars.
pub fn all_items() -> (v: [ItemKind; 6])
    ensures
        v@.len() == 6,
        forall|n: int| 0 <= n < 6 ==> v@[n] == item_at_index(n as nat),
{
    [
        ItemKind::Ore(OreKind::Copper),
        ItemKind::Ore(OreKind::Silver),
        ItemKind::Ore(OreKind::Gold),
        ItemKind::Bar(OreKind::Copper),
        ItemKind::Bar(OreKind::Silver),
        ItemKind::Bar(OreKind::Gold),
    ]
}

/// Position of an ore in `all_ores()`.
pub open spec fn ore_index(o: OreKind) -> nat {
    match o {
        OreKind::Copper => 0,
        OreKind::Silver => 1,
        OreKind::Gold => 2,
    }
}

/// Position of an item in `all_items()`.
pub open spec fn item_index(i: ItemKind) -> nat {
    match i {
        ItemKind::Ore(o) => ore_index(o),
        ItemKind::Bar(o) => 3 + ore_index(o),
    }
}

/// The item stored at a position of `all_items()`.
pub open spec fn item_at_index(n: nat) -> ItemKind {
    if n == 0 {
        ItemKind::Ore(OreKind::Copper)
    } else if n == 1 {
        ItemKind::Ore(OreKind::Silver)
    } else if n == 2 {
        ItemKind::Ore(OreKind::Gold)
    } else if n == 3 {
        ItemKind::Bar(OreKind::Copper)
    } else if n == 4 {
        ItemKind::Bar(OreKind::Silver)
    } else {
        ItemKind::Bar(OreKind::Gold)
    }
}

/// Item positions are a bijection between the six items and `0..6`.
pub proof fn lemma_item_index_bijective(i: ItemKind, j: ItemKind, n: nat)
    ensures
        item_index(i) < 6,
        item_at_index(item_index(i)) == i,
        n < 6 ==> item_index(item_at_index(n)) == n,
        item_index(i) == item_index(j) ==> i == j,
{
}

/// Numeric code of an item, used as a map key.
pub fn item_code(i: ItemKind) -> (c: u8)
    ensures
        c as nat == item_index(i),
{
    match i {
        ItemKind::Ore(OreKind::Copper) => 0,
        ItemKind::Ore(OreKind::Silver) => 1,
        ItemKind::Ore(OreKind::Gold) => 2,
        ItemKind::Bar(OreKind::Copper) => 3,
        ItemKind::Bar(OreKind::Silver) => 4,
        ItemKind::Bar(OreKind::Gold) => 5,
    }
}

/// Numeric code of an ore, used as a map key.
pub fn ore_code(o: OreKind) -> (c: u8)
    ensures
        c as nat == ore_index(o),
{
    match o {
        OreKind::Copper => 0,
        OreKind::Silver => 1,
        OreKind::Gold => 2,
    }
}

} // verus!
