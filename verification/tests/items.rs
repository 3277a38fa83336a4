use std::collections::HashSet;
use miningsim::items::{all_items, all_ores, item_code, ore_code, ItemKind, OreKind};

#[test]
fn all_ores_lists_three_kinds() {
    assert_eq!(all_ores().len(), 3);
    assert!(all_ores().contains(&OreKind::Copper));
    assert!(all_ores().contains(&OreKind::Silver));
    assert!(all_ores().contains(&OreKind::Gold));
}

#[test]
fn all_items_lists_six_combinations() {
    assert_eq!(all_items().len(), 6);
    for ore in all_ores() {
        assert!(all_items().contains(&ItemKind::Ore(ore)));
        assert!(all_items().contains(&ItemKind::Bar(ore)));
    }
}

#[test]
fn item_kind_round_trips_through_hashset() {
    let s: HashSet<ItemKind> = all_items().iter().copied().collect();
    assert_eq!(s.len(), 6);
}

#[test]
fn ore_kind_and_item_kind_are_copy() {
    let o = OreKind::Copper;
    let _o2 = o;
    let _o3 = o;
    let i = ItemKind::Ore(OreKind::Silver);
    let _i2 = i;
    let _i3 = i;
}

// ---------- further cases ----------

#[test]
fn item_codes_follow_list_order() {
    for (k, item) in all_items().iter().enumerate() {
        assert_eq!(item_code(*item) as usize, k);
    }
    for (k, ore) in all_ores().iter().enumerate() {
        assert_eq!(ore_code(*ore) as usize, k);
    }
}
