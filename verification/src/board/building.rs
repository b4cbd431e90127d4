use vstd::prelude::*;

use crate::player::PlayerId;

verus! {

#[derive(Debug, Clone, Copy, PartialEq, Eq, Hash, Structural)]
pub enum BuildingKind {
    Settlement,
    City,
}

/// Cards a building earns from each production of a neighbouring tile.
pub open spec fn kind_amount(k: BuildingKind) -> u8 {
    match k {
        BuildingKind::Settlement => 1,
        BuildingKind::City => 2,
    }
}

impl BuildingKind {
    pub fn amount(&self) -> (n: u8)
        ensures
            n == kind_amount(*self),
    {
        match self {
            BuildingKind::Settlement => 1,
            BuildingKind::City => 2,
        }
    }
}

/// A settlement or a city and the player who owns it.
#[derive(Debug, Clone, Copy, PartialEq, Eq, Hash, Structural)]
pub struct Building {
    pub kind: BuildingKind,
    pub owner: PlayerId,
}

impl Building {
    pub fn new(kind: BuildingKind, owner: PlayerId) -> (b: Building)
        ensures
            b.kind == kind,
            b.owner == owner,
    {
        Building { kind, owner }
    }

    pub fn kind(&self) -> (k: BuildingKind)
        ensures
            k == self.kind,
    {
        self.kind
    }

    pub fn owner(&self) -> (p: PlayerId)
        ensures
            p == self.owner,
    {
        self.owner
    }
}

} // verus!
