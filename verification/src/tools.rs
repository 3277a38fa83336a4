use std::collections::BTreeSet;
use vstd::prelude::*;
use crate::grid::Layer;

verus! {

broadcast use vstd::std_specs::btree::group_btree_axioms, vstd::laws_cmp::group_laws_cmp;

/// Tools a player can own. Variant order is significant: it fixes the order
/// in which owned tools are listed.
#[derive(Clone, Copy, Debug, PartialEq, Eq, Hash, PartialOrd, Ord, Structural)]
pub enum Tool {
    Shovel,
    Pickaxe,
    Jackhammer,
    Dynamite,
    /// One-time unlock for building conveyor belts. Not a digging tool: its
    /// tier is 0, so it never meets any layer's tier.
    BeltUnlock,
}

pub open spec fn spec_tool_tier(t: Tool) -> u8 {
    match t {
        Tool::Shovel => 1,
        Tool::Pickaxe => 2,
        Tool::Jackhammer => 3,
        Tool::Dynamite => 4,
        Tool::BeltUnlock => 0,
    }
}

pub open spec fn spec_layer_tier(l: Layer) -> Option<u8> {
    match l {
        Layer::Dirt => Some(1),
        Layer::Stone => Some(2),
        Layer::Deep => Some(3),
        Layer::Core => Some(4),
        Layer::Bedrock => None,
    }
}

/// Strikes needed to break a tile of `layer` with `tool`: 3 at the layer's
/// tier, 2 one tier above, 1 two or more tiers above; `None` when the tool is
/// below the layer's tier or the layer is bedrock.
pub open spec fn spec_clicks_required(tool: Tool, layer: Layer) -> Option<u8> {
    match spec_layer_tier(layer) {
        None => None,
        Some(lt) => {
            let tt = spec_tool_tier(tool);
            if tt < lt {
                None
            } else if tt - lt >= 2 {
                Some(1u8)
            } else {
                Some((3 - (tt - lt)) as u8)
            }
        },
    }
}

pub fn tool_tier(t: Tool) -> (r: u8)
    ensures
        r == spec_tool_tier(t),
{
    match t {
        Tool::Shovel => 1,
        Tool::Pickaxe => 2,
        Tool::Jackhammer => 3,
        Tool::Dynamite => 4,
        Tool::BeltUnlock => 0,
    }
}

pub fn layer_tier(l: Layer) -> (r: Option<u8>)
    ensures
        r == spec_layer_tier(l),
{
    match l {
        Layer::Dirt => Some(1),
        Layer::Stone => Some(2),
        Layer::Deep => Some(3),
        Layer::Core => Some(4),
        Layer::Bedrock => None,
    }
}

pub fn clicks_required(tool: Tool, layer: Layer) -> (r: Option<u8>)
    ensures
        r == spec_clicks_required(tool, layer),
{
    let lt = match layer_tier(layer) {
        Some(lt) => lt,
        None => return None,
    };
    let tt = tool_tier(tool);
    if tt < lt {
        return None;
    }
    let diff = tt - lt;
    let gap = if diff < 2 { diff } else { 2 };
    Some(3 - gap)
}

/// Position of a tool in variant order; owned tools are stored by it.
pub open spec fn tool_index(t: Tool) -> u8 {
    match t {
        Tool::Shovel => 0,
        Tool::Pickaxe => 1,
        Tool::Jackhammer => 2,
        Tool::Dynamite => 3,
        Tool::BeltUnlock => 4,
    }
}

pub fn tool_code(t: Tool) -> (c: u8)
    ensures
        c == tool_index(t),
{
    match t {
        Tool::Shovel => 0,
        Tool::Pickaxe => 1,
        Tool::Jackhammer => 2,
        Tool::Dynamite => 3,
        Tool::BeltUnlock => 4,
    }
}

/// Distinct tools have distinct codes.
pub proof fn lemma_tool_index_injective(a: Tool, b: Tool)
    ensures
        tool_index(a) == tool_index(b) <==> a == b,
{
}

/// The set of tools a player owns, kept ordered by variant order.
#[derive(Clone, Debug)]
pub struct OwnedTools {
    /// The `tool_code` of every owned tool.
    codes: BTreeSet<u8>,
}

impl OwnedTools {
    /// The owned tools as a set.
    pub closed spec fn owned(self) -> Set<Tool> {
        Set::new(|t: Tool| self.codes@.contains(tool_index(t)))
    }

    /// Only codes of tools are stored.
    pub closed spec fn wf(self) -> bool {
        forall|c: u8| #[trigger] self.codes@.contains(c) ==> c < 5
    }

    /// A set holding exactly the given tools.
    pub fn from_tools(list: &[Tool]) -> (s: OwnedTools)
        ensures
            s.wf(),
            forall|t: Tool| s.owned().contains(t) <==> list@.contains(t),
    {
        let mut s = OwnedTools { codes: BTreeSet::new() };
        let mut i: usize = 0;
        while i < list.len()
            invariant
                0 <= i <= list@.len(),
                s.wf(),
                forall|t: Tool| s.owned().contains(t) <==> (exists|k: int| 0 <= k < i && list@[k] == t),
            decreases list@.len() - i,
        {
            let t = list[i];
            s.insert(t);
            assert(list@[i as int] == t);
            i = i + 1;
        }
        s
    }

    pub fn contains(&self, t: Tool) -> (b: bool)
        ensures
            b == self.owned().contains(t),
    {
        let c = tool_code(t);
        self.codes.contains(&c)
    }

    /// Adds `t`; returns whether it was newly added.
    pub fn insert(&mut self, t: Tool) -> (added: bool)
        requires
            old(self).wf(),
        ensures
            final(self).wf(),
            final(self).owned() == old(self).owned().insert(t),
            added == !old(self).owned().contains(t),
    {
        let c = tool_code(t);
        let added = self.codes.insert(c);
        proof {
            assert forall|u: Tool| #[trigger] self.owned().contains(u) <==> old(self).owned().insert(t).contains(u) by {
                lemma_tool_index_injective(u, t);
            }
            assert(self.owned() =~= old(self).owned().insert(t));
        }
        added
    }

    /// Number of owned tools.
    pub fn len(&self) -> (n: usize)
        requires
            self.wf(),
        ensures
            n == self.owned().len(),
    {
        proof {
            let f = |t: Tool| tool_index(t);
            assert(self.codes@ =~= self.owned().map(f)) by {
                assert forall|c: u8| self.codes@.contains(c) implies self.owned().map(f).contains(c) by {
                    let t = if c == 0 { Tool::Shovel } else if c == 1 { Tool::Pickaxe } else if c == 2 {
                        Tool::Jackhammer
                    } else if c == 3 { Tool::Dynamite } else { Tool::BeltUnlock };
                    assert(self.owned().contains(t));
                    assert(f(t) == c);
                }
            }
            lemma_owned_finite(self.owned());
            assert(vstd::relations::injective_on(f, self.owned())) by {
                assert forall|a: Tool, b: Tool| #![trigger f(a), f(b)] f(a) == f(b) implies a == b by {
                    lemma_tool_index_injective(a, b);
                }
            }
            vstd::set_lib::lemma_map_size(self.owned(), self.codes@, f);
        }
        self.codes.len()
    }
}

/// Any set of tools is finite.
proof fn lemma_owned_finite(s: Set<Tool>)
    ensures
        s.finite(),
{
    let all = set![Tool::Shovel, Tool::Pickaxe, Tool::Jackhammer, Tool::Dynamite, Tool::BeltUnlock];
    assert(s.subset_of(all)) by {
        assert forall|t: Tool| s.contains(t) implies all.contains(t) by {
            match t {
                Tool::Shovel => {},
                Tool::Pickaxe => {},
                Tool::Jackhammer => {},
                Tool::Dynamite => {},
                Tool::BeltUnlock => {},
            }
        }
    }
    vstd::set_lib::lemma_set_subset_finite(all, s);
}

impl Default for OwnedTools {
    /// A new player owns just the shovel.
    fn default() -> (s: OwnedTools)
        ensures
            s.wf(),
            s.owned() == Set::<Tool>::empty().insert(Tool::Shovel),
    {
        let mut s = OwnedTools { codes: BTreeSet::new() };
        proof {
            assert(s.owned() =~= Set::<Tool>::empty());
        }
        s.insert(Tool::Shovel);
        s
    }
}

/// The strongest owned digging tool that can break `layer`, trying
/// Dynamite, Jackhammer, Pickaxe, then Shovel.
pub open spec fn spec_best_applicable_tool(owned: Set<Tool>, layer: Layer) -> Option<Tool> {
    if owned.contains(Tool::Dynamite) && spec_clicks_required(Tool::Dynamite, layer) is Some {
        Some(Tool::Dynamite)
    } else if owned.contains(Tool::Jackhammer) && spec_clicks_required(Tool::Jackhammer, layer) is Some {
        Some(Tool::Jackhammer)
    } else if owned.contains(Tool::Pickaxe) && spec_clicks_required(Tool::Pickaxe, layer) is Some {
        Some(Tool::Pickaxe)
    } else if owned.contains(Tool::Shovel) && spec_clicks_required(Tool::Shovel, layer) is Some {
        Some(Tool::Shovel)
    } else {
        None
    }
}

pub fn best_applicable_tool(owned: &OwnedTools, layer: Layer) -> (r: Option<Tool>)
    ensures
        r == spec_best_applicable_tool(owned.owned(), layer),
{
    let candidates = [Tool::Dynamite, Tool::Jackhammer, Tool::Pickaxe, Tool::Shovel];
    let mut i: usize = 0;
    while i < 4
        invariant
            0 <= i <= 4,
            candidates@ == seq![Tool::Dynamite, Tool::Jackhammer, Tool::Pickaxe, Tool::Shovel],
            forall|k: int| 0 <= k < i ==> !(owned.owned().contains(#[trigger] candidates@[k])
                && spec_clicks_required(candidates@[k], layer) is Some),
        decreases 4 - i,
    {
        let t = candidates[i];
        if owned.contains(t) && clicks_required(t, layer).is_some() {
            return Some(t);
        }
        i = i + 1;
    }
    None
}

/// The strongest owned digging tool regardless of layer, trying Dynamite,
/// Jackhammer, Pickaxe, then Shovel; Shovel when none of them is owned.
pub open spec fn spec_strongest_owned_tool(owned: Set<Tool>) -> Tool {
    if owned.contains(Tool::Dynamite) {
        Tool::Dynamite
    } else if owned.contains(Tool::Jackhammer) {
        Tool::Jackhammer
    } else if owned.contains(Tool::Pickaxe) {
        Tool::Pickaxe
    } else {
        Tool::Shovel
    }
}

/// The tool shown as the player's current one.
pub fn strongest_owned_tool(owned: &OwnedTools) -> (t: Tool)
    ensures
        t == spec_strongest_owned_tool(owned.owned()),
{
    if owned.contains(Tool::Dynamite) {
        Tool::Dynamite
    } else if owned.contains(Tool::Jackhammer) {
        Tool::Jackhammer
    } else if owned.contains(Tool::Pickaxe) {
        Tool::Pickaxe
    } else {
        Tool::Shovel
    }
}

pub open spec fn spec_tool_display_name(t: Tool) -> Seq<char> {
    match t {
        Tool::Shovel => "Shovel"@,
        Tool::Pickaxe => "Pickaxe"@,
        Tool::Jackhammer => "Jackhammer"@,
        Tool::Dynamite => "Dynamite"@,
        Tool::BeltUnlock => "Belt Unlock"@,
    }
}

/// The name a tool is shown under.
pub fn current_tool_display_name(t: Tool) -> (s: &'static str)
    ensures
        s@ == spec_tool_display_name(t),
{
    match t {
        Tool::Shovel => "Shovel",
        Tool::Pickaxe => "Pickaxe",
        Tool::Jackhammer => "Jackhammer",
        Tool::Dynamite => "Dynamite",
        Tool::BeltUnlock => "Belt Unlock",
    }
}

/// A tool that can break a layer needs 1 to 3 strikes, and a stronger tool
/// never needs more strikes than a weaker one.
pub proof fn law_clicks_required_monotone(weak: Tool, strong: Tool, layer: Layer)
    requires
        spec_tool_tier(weak) <= spec_tool_tier(strong),
    ensures
        spec_clicks_required(weak, layer) matches Some(n) ==> 1 <= n <= 3,
        spec_clicks_required(weak, layer) matches Some(n) ==> (spec_clicks_required(strong, layer) matches Some(m) && m <= n),
        spec_clicks_required(weak, Layer::Bedrock) is None,
{
}

/// The chosen tool is owned and can break the layer, and no stronger owned
/// digging tool can; `None` means no owned tool can break the layer.
pub proof fn law_best_tool_is_strongest(owned: Set<Tool>, layer: Layer, other: Tool)
    requires
        owned.contains(other),
        other != Tool::BeltUnlock,
        spec_clicks_required(other, layer) is Some,
    ensures
        spec_best_applicable_tool(owned, layer) matches Some(t) && owned.contains(t)
            && spec_clicks_required(t, layer) is Some
            && spec_tool_tier(other) <= spec_tool_tier(t),
{
}

/// The shown tool is at least as strong as every owned digging tool, and is
/// owned whenever some digging tool is.
pub proof fn law_strongest_owned_tool(owned: Set<Tool>, other: Tool)
    requires
        owned.contains(other),
        other != Tool::BeltUnlock,
    ensures
        owned.contains(spec_strongest_owned_tool(owned)),
        spec_tool_tier(other) <= spec_tool_tier(spec_strongest_owned_tool(owned)),
{
}

/// A tool at a layer's tier needs three strikes, one tier above needs two,
/// two or more tiers above needs one, and a tool below the layer's tier (or
/// any tool on bedrock) cannot break it at all.
pub proof fn law_strikes_by_tier_gap(tool: Tool, layer: Layer)
    ensures
        layer == Layer::Bedrock ==> spec_clicks_required(tool, layer) is None,
        spec_layer_tier(layer) matches Some(lt) ==> {
            let gap = spec_tool_tier(tool) - lt;
            &&& gap < 0 ==> spec_clicks_required(tool, layer) is None
            &&& gap == 0 ==> spec_clicks_required(tool, layer) == Some(3u8)
            &&& gap == 1 ==> spec_clicks_required(tool, layer) == Some(2u8)
            &&& gap >= 2 ==> spec_clicks_required(tool, layer) == Some(1u8)
        },
{
}

/// Digging tools and diggable layers are ranked alike, shallowest first:
/// shovel for dirt, pickaxe for stone, jackhammer for deep rock, dynamite
/// for the core; the belt unlock is no digging tool.
pub proof fn law_tool_and_layer_tiers()
    ensures
        spec_layer_tier(Layer::Dirt) == Some(spec_tool_tier(Tool::Shovel)),
        spec_layer_tier(Layer::Stone) == Some(spec_tool_tier(Tool::Pickaxe)),
        spec_layer_tier(Layer::Deep) == Some(spec_tool_tier(Tool::Jackhammer)),
        spec_layer_tier(Layer::Core) == Some(spec_tool_tier(Tool::Dynamite)),
        spec_tool_tier(Tool::Shovel) == 1,
        spec_tool_tier(Tool::Shovel) < spec_tool_tier(Tool::Pickaxe) < spec_tool_tier(Tool::Jackhammer) < spec_tool_tier(Tool::Dynamite),
        spec_tool_tier(Tool::BeltUnlock) == 0,
{
}

} // verus!
