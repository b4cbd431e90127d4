//! A deterministic Catan game engine: board topology, resources, placement
//! rules, production and the turn sequence, with every rule stated as a
//! contract.
use vstd::prelude::*;

pub mod board;
pub mod game;
pub mod geometry;
pub mod player;
pub mod resource;
pub mod roll;
pub mod scenario;
pub mod text;

pub use board::{Board, InvalidAction, InvalidBoard};
pub use board::{Building, BuildingKind, Gain, NumberToken, Production, Terrain, Tile};
pub use game::{Game, GameError, GameStatus, RollOutcome};
pub use geometry::{EdgeId, Hex, HexCorner, TileId, Topology, VertexId};
pub use player::{Player, PlayerColor, PlayerId};
pub use roll::Roll;
pub use scenario::Scenario;
pub use resource::{Cost, Hand, Resource, ResourceCounts, ResourceError, Steal};

verus! {

} // verus!
