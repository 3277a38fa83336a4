use vstd::prelude::*;
use crate::inventory::Inventory;
use crate::items::{ItemKind, OreKind, all_items, item_at_index};
use crate::tools::{OwnedTools, Tool, spec_tool_tier};

verus! {

/// Coins held by a player.
#[derive(Clone, Copy, Debug, PartialEq, Eq, Structural)]
pub struct Money(pub u32);

impl Default for Money {
    fn default() -> (m: Money)
        ensures
            m.0 == 0,
    {
        Money(0)
    }
}

pub open spec fn spec_item_sell_price(item: ItemKind) -> u32 {
    match item {
        ItemKind::Ore(OreKind::Copper) => 1,
        ItemKind::Ore(OreKind::Silver) => 5,
        ItemKind::Ore(OreKind::Gold) => 20,
        ItemKind::Bar(OreKind::Copper) => 5,
        ItemKind::Bar(OreKind::Silver) => 25,
        ItemKind::Bar(OreKind::Gold) => 100,
    }
}

/// Shop price of each tool. The shovel is free. The belt unlock's price, 50,
/// is this library's own choice: no other price is given for it.
pub open spec fn spec_tool_buy_price(tool: Tool) -> u32 {
    match tool {
        Tool::Shovel => 0,
        Tool::Pickaxe => 30,
        Tool::Jackhammer => 100,
        Tool::Dynamite => 300,
        Tool::BeltUnlock => 50,
    }
}

pub fn item_sell_price(item: ItemKind) -> (p: u32)
    ensures
        p == spec_item_sell_price(item),
{
    match item {
        ItemKind::Ore(OreKind::Copper) => 1,
        ItemKind::Ore(OreKind::Silver) => 5,
        ItemKind::Ore(OreKind::Gold) => 20,
        ItemKind::Bar(OreKind::Copper) => 5,
        ItemKind::Bar(OreKind::Silver) => 25,
        ItemKind::Bar(OreKind::Gold) => 100,
    }
}

/// Shop price of `tool`; see `spec_tool_buy_price`.
pub fn tool_buy_price(tool: Tool) -> (p: u32)
    ensures
        p == spec_tool_buy_price(tool),
{
    match tool {
        Tool::Shovel => 0,
        Tool::Pickaxe => 30,
        Tool::Jackhammer => 100,
        Tool::Dynamite => 300,
        Tool::BeltUnlock => 50,
    }
}

/// Sale value of the first `k` items of `all_items()` held in `inv`.
pub open spec fn value_of_first(inv: Inventory, k: nat) -> int
    decreases k,
{
    if k == 0 {
        0
    } else {
        let item = item_at_index((k - 1) as nat);
        value_of_first(inv, (k - 1) as nat) + spec_item_sell_price(item) * inv.count(item)
    }
}

/// Sale value of everything held in `inv`.
pub open spec fn inventory_value(inv: Inventory) -> int {
    value_of_first(inv, 6)
}

proof fn lemma_value_of_first_monotone(inv: Inventory, a: nat, b: nat)
    requires
        a <= b,
    ensures
        value_of_first(inv, a) <= value_of_first(inv, b),
    decreases b,
{
    if a < b {
        lemma_value_of_first_monotone(inv, a, (b - 1) as nat);
        let item = item_at_index((b - 1) as nat);
        assert(spec_item_sell_price(item) * inv.count(item) >= 0) by (nonlinear_arith);
    }
}

proof fn lemma_value_of_first_frame(a: Inventory, b: Inventory, k: nat)
    requires
        forall|n: nat| n < k ==> a.count(item_at_index(n)) == b.count(item_at_index(n)),
    ensures
        value_of_first(a, k) == value_of_first(b, k),
    decreases k,
{
    if k > 0 {
        lemma_value_of_first_frame(a, b, (k - 1) as nat);
        assert(a.count(item_at_index((k - 1) as nat)) == b.count(item_at_index((k - 1) as nat)));
    }
}

/// Sells every item held: adds its sale value to `money` and empties the
/// inventory.
pub fn sell_all(inv: &mut Inventory, money: &mut Money)
    requires
        old(money).0 + inventory_value(*old(inv)) <= u32::MAX,
    ensures
        final(money).0 == old(money).0 + inventory_value(*old(inv)),
        forall|i: ItemKind| #[trigger] final(inv).count(i) == 0,
{
    let items = all_items();
    let ghost inv0 = *inv;
    let ghost money0 = money.0;
    let mut k: usize = 0;
    while k < 6
        invariant
            0 <= k <= 6,
            money0 + inventory_value(inv0) <= u32::MAX,
            forall|n: int| 0 <= n < 6 ==> items@[n] == item_at_index(n as nat),
            money.0 == money0 + value_of_first(inv0, k as nat),
            forall|n: nat| n < k ==> inv.count(#[trigger] item_at_index(n)) == 0,
            forall|n: nat| k <= n < 6 ==> inv.count(#[trigger] item_at_index(n)) == inv0.count(item_at_index(n)),
            forall|i: ItemKind| #[trigger] inv.count(i) != inv0.count(i) ==> inv.count(i) == 0,
        decreases 6 - k,
    {
        let item = items[k];
        let count = inv.get(item);
        proof {
            lemma_value_of_first_monotone(inv0, (k + 1) as nat, 6);
            assert(count == inv0.count(item_at_index(k as nat)));
        }
        if count != 0 {
            let price = item_sell_price(item);
            money.0 = money.0 + price * count;
            inv.remove(item, count);
        }
        proof {
            assert forall|n: nat| n < k + 1 implies inv.count(#[trigger] item_at_index(n)) == 0 by {
                crate::items::lemma_item_index_bijective(item_at_index(n), item, n);
            }
            assert forall|n: nat| k + 1 <= n < 6 implies inv.count(#[trigger] item_at_index(n)) == inv0.count(item_at_index(n)) by {
                crate::items::lemma_item_index_bijective(item_at_index(n), item, n);
                crate::items::lemma_item_index_bijective(item, item, k as nat);
            }
        }
        k = k + 1;
    }
    proof {
        assert forall|i: ItemKind| #[trigger] inv.count(i) == 0 by {
            crate::items::lemma_item_index_bijective(i, i, 0);
            let n = crate::items::item_index(i);
            assert(inv.count(item_at_index(n)) == 0);
        }
    }
}

/// Outcome of trying to buy a tool.
#[derive(Clone, Copy, Debug, PartialEq, Eq, Structural)]
pub enum BuyResult {
    Bought,
    AlreadyOwned,
    NotEnoughMoney,
}

/// Buys `tool` if it is not owned yet and `money` covers its price.
pub fn try_buy(tool: Tool, money: &mut Money, owned: &mut OwnedTools) -> (r: BuyResult)
    requires
        old(owned).wf(),
    ensures
        final(owned).wf(),
        old(owned).owned().contains(tool) ==> {
            &&& r == BuyResult::AlreadyOwned
            &&& final(money).0 == old(money).0
            &&& final(owned).owned() == old(owned).owned()
        },
        !old(owned).owned().contains(tool) && old(money).0 < spec_tool_buy_price(tool) ==> {
            &&& r == BuyResult::NotEnoughMoney
            &&& final(money).0 == old(money).0
            &&& final(owned).owned() == old(owned).owned()
        },
        !old(owned).owned().contains(tool) && old(money).0 >= spec_tool_buy_price(tool) ==> {
            &&& r == BuyResult::Bought
            &&& final(money).0 == old(money).0 - spec_tool_buy_price(tool)
            &&& final(owned).owned() == old(owned).owned().insert(tool)
        },
{
    if owned.contains(tool) {
        return BuyResult::AlreadyOwned;
    }
    let price = tool_buy_price(tool);
    if money.0 < price {
        return BuyResult::NotEnoughMoney;
    }
    money.0 = money.0 - price;
    owned.insert(tool);
    BuyResult::Bought
}

/// An empty inventory is worth nothing, so selling it leaves money unchanged.
pub proof fn law_empty_inventory_worth_nothing(inv: Inventory)
    requires
        forall|i: ItemKind| #[trigger] inv.count(i) == 0,
    ensures
        inventory_value(inv) == 0,
{
    assert(inv.count(item_at_index(0)) == 0);
    assert(inv.count(item_at_index(1)) == 0);
    assert(inv.count(item_at_index(2)) == 0);
    assert(inv.count(item_at_index(3)) == 0);
    assert(inv.count(item_at_index(4)) == 0);
    assert(inv.count(item_at_index(5)) == 0);
    reveal_with_fuel(value_of_first, 7);
}

/// Inventory value is the sum over the six items of price times count.
pub proof fn law_inventory_value_sum(inv: Inventory)
    ensures
        inventory_value(inv) == 1 * inv.count(item_at_index(0)) + 5 * inv.count(item_at_index(1))
            + 20 * inv.count(item_at_index(2)) + 5 * inv.count(item_at_index(3))
            + 25 * inv.count(item_at_index(4)) + 100 * inv.count(item_at_index(5)),
{
    reveal_with_fuel(value_of_first, 7);
}

/// After a purchase goes through, the tool is owned: buying it again is
/// refused as already owned and costs nothing.
pub proof fn law_buy_then_owned(before: Set<Tool>, after: Set<Tool>, tool: Tool)
    requires
        after == before.insert(tool),
    ensures
        after.contains(tool),
        forall|t: Tool| before.contains(t) ==> after.contains(t),
{
}

/// Smelting pays: a bar sells for five times the ore it is made from, and
/// rarer ores sell for more.
pub proof fn law_bar_worth_five_ores(o: OreKind)
    ensures
        spec_item_sell_price(ItemKind::Bar(o)) == 5 * spec_item_sell_price(ItemKind::Ore(o)),
        spec_item_sell_price(ItemKind::Ore(OreKind::Copper)) < spec_item_sell_price(ItemKind::Ore(OreKind::Silver)),
        spec_item_sell_price(ItemKind::Ore(OreKind::Silver)) < spec_item_sell_price(ItemKind::Ore(OreKind::Gold)),
{
}

/// The starting shovel is free, and each stronger digging tool costs more.
pub proof fn law_stronger_tools_cost_more(a: Tool, b: Tool)
    requires
        a != Tool::BeltUnlock,
        b != Tool::BeltUnlock,
        spec_tool_tier(a) < spec_tool_tier(b),
    ensures
        spec_tool_buy_price(a) < spec_tool_buy_price(b),
        spec_tool_buy_price(Tool::Shovel) == 0,
{
}

} // verus!
