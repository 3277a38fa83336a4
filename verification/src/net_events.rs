//! Messages exchanged between a host and its clients. Serialisation lives
//! with the transport; these are the plain values.

use vstd::prelude::*;
use crate::belt::BeltDir;
use crate::coords::IVec2;
use crate::grid::{Grid, Tile};
use crate::items::OreKind;
use crate::tools::Tool;

verus! {

/// Client -> server: strike the tile at `target`.
#[derive(Clone, Copy, Debug, PartialEq, Eq, Structural)]
pub struct DigRequest {
    pub target: IVec2,
}

/// Client -> server: buy `tool`.
#[derive(Clone, Copy, Debug, PartialEq, Eq, Structural)]
pub struct BuyToolRequest {
    pub tool: Tool,
}

/// Client -> server: smelt all carried ore of kind `ore`.
#[derive(Clone, Copy, Debug, PartialEq, Eq, Structural)]
pub struct SmeltAllRequest {
    pub ore: OreKind,
}

/// Client -> server: take every finished bar from the smelter.
#[derive(Clone, Copy, Debug, PartialEq, Eq, Structural)]
pub struct CollectAllRequest;

/// Client -> server: sell everything carried.
#[derive(Clone, Copy, Debug, PartialEq, Eq, Structural)]
pub struct SellAllRequest;

/// Client -> server: place a belt facing `dir` on `tile`.
#[derive(Clone, Copy, Debug, PartialEq, Eq, Structural)]
pub struct PlaceBeltRequest {
    pub tile: IVec2,
    pub dir: BeltDir,
}

/// Client -> server: remove the belt on `tile`.
#[derive(Clone, Copy, Debug, PartialEq, Eq, Structural)]
pub struct RemoveBeltRequest {
    pub tile: IVec2,
}

/// Server -> one client, once on connection: the whole grid.
#[derive(Clone, Debug)]
pub struct GridSnapshot {
    pub grid: Grid,
}

/// Server -> all clients after each tile change: the tile's new state.
#[derive(Clone, Copy, Debug, PartialEq, Eq, Structural)]
pub struct TileChanged {
    pub pos: IVec2,
    pub tile: Tile,
}

} // verus!
