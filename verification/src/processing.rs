use std::collections::HashMap;
use vstd::prelude::*;
use crate::inventory::Inventory;
use crate::items::{ItemKind, OreKind, all_ores, ore_code, ore_index};

verus! {

broadcast use vstd::std_specs::hash::group_hash_axioms;

/// Time to smelt one bar, in milliseconds.
pub const SMELT_DURATION_MS: u32 = 2000;

/// Finished bars per ore. Ores never produced count 0.
#[derive(Clone, Debug)]
pub struct OreCounts {
    /// Keyed by `ore_code`; only produced ores have an entry, never 0.
    counts: HashMap<u8, u32>,
}

impl OreCounts {
    pub closed spec fn count(self, ore: OreKind) -> nat {
        let k = ore_index(ore) as u8;
        if self.counts@.contains_key(k) { self.counts@[k] as nat } else { 0 }
    }

    pub closed spec fn wf(self) -> bool {
        forall|k: u8| #[trigger] self.counts@.contains_key(k) ==> k < 3 && self.counts@[k] > 0
    }

    pub fn new() -> (c: OreCounts)
        ensures
            c.wf(),
            forall|o: OreKind| c.count(o) == 0,
    {
        OreCounts { counts: HashMap::new() }
    }

    pub fn get(&self, ore: OreKind) -> (n: u32)
        ensures
            n == self.count(ore),
    {
        match self.counts.get(&ore_code(ore)) {
            Some(n) => *n,
            None => 0,
        }
    }

    /// Whether no bar of any ore is held.
    pub fn is_empty(&self) -> (b: bool)
        requires
            self.wf(),
        ensures
            b == forall|o: OreKind| self.count(o) == 0,
    {
        let b = self.counts.is_empty();
        proof {
            if !b {
                let k = choose|k: u8| self.counts@.contains_key(k);
                let o = if k == 0 { OreKind::Copper } else if k == 1 { OreKind::Silver } else { OreKind::Gold };
                assert(self.count(o) > 0);
            } else {
                assert forall|o: OreKind| self.count(o) == 0 by {
                    assert(!self.counts@.contains_key(ore_index(o) as u8));
                }
            }
        }
        b
    }

    /// Sets the number of finished `ore` bars to `n`, as when restoring a
    /// saved smelter.
    pub fn set(&mut self, ore: OreKind, n: u32)
        requires
            old(self).wf(),
        ensures
            final(self).wf(),
            forall|o: OreKind| #[trigger] final(self).count(o) == if o == ore {
                n as nat
            } else {
                old(self).count(o)
            },
    {
        if n == 0 {
            self.counts.remove(&ore_code(ore));
        } else {
            self.counts.insert(ore_code(ore), n);
        }
    }

    fn add_one(&mut self, ore: OreKind)
        requires
            old(self).wf(),
            old(self).count(ore) < u32::MAX,
        ensures
            final(self).wf(),
            forall|o: OreKind| #[trigger] final(self).count(o) == if o == ore {
                old(self).count(o) + 1
            } else {
                old(self).count(o)
            },
    {
        let c = self.get(ore);
        self.counts.insert(ore_code(ore), c + 1);
    }
}

/// A smelter: the ore being smelted, time left on the current bar, bars
/// still queued (the current one included) and finished bars.
#[derive(Clone, Debug)]
pub struct SmelterState {
    pub recipe: Option<OreKind>,
    pub time_left_ms: u32,
    pub queue: u32,
    pub output: OreCounts,
}

/// A busy smelter has bars queued; the output map is well formed.
pub open spec fn smelter_wf(s: SmelterState) -> bool {
    &&& s.output.wf()
    &&& s.recipe is Some ==> s.queue > 0
}

impl SmelterState {
    pub fn new() -> (s: SmelterState)
        ensures
            smelter_wf(s),
            s.recipe is None,
            s.time_left_ms == 0,
            s.queue == 0,
            forall|o: OreKind| s.output.count(o) == 0,
    {
        SmelterState { recipe: None, time_left_ms: 0, queue: 0, output: OreCounts::new() }
    }
}

impl Default for SmelterState {
    fn default() -> (s: SmelterState)
        ensures
            smelter_wf(s),
            s.recipe is None,
            s.time_left_ms == 0,
            s.queue == 0,
            forall|o: OreKind| s.output.count(o) == 0,
    {
        SmelterState::new()
    }
}

/// What one tick of the smelter produced.
#[derive(Clone, Copy, Debug, PartialEq, Eq, Structural)]
pub enum SmeltTickEvent {
    Nothing,
    BarFinished(OreKind),
}

pub fn is_busy(state: &SmelterState) -> (b: bool)
    ensures
        b == state.recipe is Some,
{
    state.recipe.is_some()
}

/// Starts smelting `count` bars of `ore`; does nothing when `count` is 0 or
/// the smelter is busy.
pub fn start_smelting(state: &mut SmelterState, ore: OreKind, count: u32)
    ensures
        smelter_wf(*old(state)) ==> smelter_wf(*final(state)),
        final(state).output == old(state).output,
        if count == 0 || old(state).recipe is Some {
            *final(state) == *old(state)
        } else {
            &&& final(state).recipe == Some(ore)
            &&& final(state).queue == count
            &&& final(state).time_left_ms == SMELT_DURATION_MS
        },
{
    if count == 0 || state.recipe.is_some() {
        return;
    }
    state.recipe = Some(ore);
    state.queue = count;
    state.time_left_ms = SMELT_DURATION_MS;
}

/// Advances the smelter by `dt_ms` milliseconds. When the current bar's time
/// runs out, exactly one bar is finished however far `dt_ms` overshoots; the
/// timer restarts for the next queued bar, or the smelter goes idle.
pub fn tick_smelter(state: &mut SmelterState, dt_ms: u32) -> (ev: SmeltTickEvent)
    requires
        smelter_wf(*old(state)),
        dt_ms >= old(state).time_left_ms ==> (old(state).recipe matches Some(o) ==> old(state).output.count(o) < u32::MAX),
    ensures
        smelter_wf(*final(state)),
        match old(state).recipe {
            None => ev == SmeltTickEvent::Nothing && *final(state) == *old(state),
            Some(ore) => if dt_ms < old(state).time_left_ms {
                &&& ev == SmeltTickEvent::Nothing
                &&& final(state).time_left_ms == old(state).time_left_ms - dt_ms
                &&& final(state).recipe == old(state).recipe
                &&& final(state).queue == old(state).queue
                &&& final(state).output == old(state).output
            } else {
                &&& ev == SmeltTickEvent::BarFinished(ore)
                &&& final(state).queue == old(state).queue - 1
                &&& forall|o: OreKind| #[trigger] final(state).output.count(o) == if o == ore {
                    old(state).output.count(o) + 1
                } else {
                    old(state).output.count(o)
                }
                &&& if old(state).queue > 1 {
                    final(state).recipe == Some(ore) && final(state).time_left_ms == SMELT_DURATION_MS
                } else {
                    final(state).recipe is None && final(state).time_left_ms == 0
                }
            },
        },
{
    let ore = match state.recipe {
        Some(o) => o,
        None => return SmeltTickEvent::Nothing,
    };
    if dt_ms < state.time_left_ms {
        state.time_left_ms = state.time_left_ms - dt_ms;
        return SmeltTickEvent::Nothing;
    }
    state.output.add_one(ore);
    state.queue = state.queue - 1;
    if state.queue > 0 {
        state.time_left_ms = SMELT_DURATION_MS;
    } else {
        state.recipe = None;
        state.time_left_ms = 0;
    }
    SmeltTickEvent::BarFinished(ore)
}

/// Takes every finished bar out of the smelter.
pub fn collect_output(state: &mut SmelterState) -> (out: OreCounts)
    ensures
        smelter_wf(*final(state)) == (old(state).recipe is Some ==> old(state).queue > 0),
        out == old(state).output,
        final(state).recipe == old(state).recipe,
        final(state).queue == old(state).queue,
        final(state).time_left_ms == old(state).time_left_ms,
        forall|o: OreKind| final(state).output.count(o) == 0,
{
    let mut out = OreCounts::new();
    std::mem::swap(&mut out, &mut state.output);
    out
}

/// Loads all ore of kind `ore` from `inv` into an idle smelter. Does nothing
/// (and returns false) when `inv` holds none or the smelter is busy.
pub fn smelt_all(inv: &mut Inventory, state: &mut SmelterState, ore: OreKind) -> (started: bool)
    requires
        smelter_wf(*old(state)),
    ensures
        smelter_wf(*final(state)),
        started == (old(inv).count(ItemKind::Ore(ore)) > 0 && old(state).recipe is None),
        started ==> {
            &&& final(state).recipe == Some(ore)
            &&& final(state).queue == old(inv).count(ItemKind::Ore(ore))
            &&& final(state).time_left_ms == SMELT_DURATION_MS
            &&& final(state).output == old(state).output
            &&& forall|i: ItemKind| #[trigger] final(inv).count(i) == if i == ItemKind::Ore(ore) { 0 } else { old(inv).count(i) }
        },
        !started ==> *final(state) == *old(state) && forall|i: ItemKind| #[trigger] final(inv).count(i) == old(inv).count(i),
{
    let count = inv.get(ItemKind::Ore(ore));
    if count == 0 || is_busy(state) {
        return false;
    }
    inv.remove(ItemKind::Ore(ore), count);
    start_smelting(state, ore, count);
    true
}

/// Moves every finished bar from the smelter into `inv`.
pub fn collect_all(inv: &mut Inventory, state: &mut SmelterState)
    requires
        smelter_wf(*old(state)),
        forall|o: OreKind| old(inv).count(ItemKind::Bar(o)) + old(state).output.count(o) <= u32::MAX,
    ensures
        smelter_wf(*final(state)),
        final(state).recipe == old(state).recipe,
        final(state).queue == old(state).queue,
        final(state).time_left_ms == old(state).time_left_ms,
        forall|o: OreKind| #[trigger] final(state).output.count(o) == 0,
        forall|i: ItemKind| #[trigger] final(inv).count(i) == match i {
            ItemKind::Bar(o) => old(inv).count(i) + old(state).output.count(o),
            ItemKind::Ore(_) => old(inv).count(i),
        },
{
    let drained = collect_output(state);
    let ores = all_ores();
    let ghost inv0 = *inv;
    let mut k: usize = 0;
    while k < 3
        invariant
            0 <= k <= 3,
            ores@ == seq![OreKind::Copper, OreKind::Silver, OreKind::Gold],
            forall|o: OreKind| inv0.count(ItemKind::Bar(o)) + drained.count(o) <= u32::MAX,
            forall|i: ItemKind| #[trigger] inv.count(i) == match i {
                ItemKind::Bar(o) => if ore_index(o) < k { inv0.count(i) + drained.count(o) } else { inv0.count(i) },
                ItemKind::Ore(_) => inv0.count(i),
            },
        decreases 3 - k,
    {
        let ore = ores[k];
        let n = drained.get(ore);
        assert(inv.count(ItemKind::Bar(ore)) == inv0.count(ItemKind::Bar(ore)));
        inv.add(ItemKind::Bar(ore), n);
        k = k + 1;
    }
}

} // verus!
