use vstd::prelude::*;

pub mod cost;
pub mod counts;
pub mod hand;
pub mod steal;

pub use cost::Cost;
pub use counts::ResourceCounts;
pub use hand::{Hand, ResourceError};
pub use steal::Steal;

verus! {

/// The five kinds of resource cards.
#[derive(Debug, Clone, Copy, PartialEq, Eq, Hash, Structural)]
pub enum Resource {
    Wood,
    Stone,
    Brick,
    Wheat,
    Wool,
}

/// Position of a resource in a five-slot count.
pub open spec fn resource_slot(r: Resource) -> int {
    match r {
        Resource::Wood => 0,
        Resource::Stone => 1,
        Resource::Brick => 2,
        Resource::Wheat => 3,
        Resource::Wool => 4,
    }
}

/// The resource held in a slot, if the slot exists.
pub open spec fn slot_resource(i: int) -> Option<Resource> {
    if i == 0 {
        Some(Resource::Wood)
    } else if i == 1 {
        Some(Resource::Stone)
    } else if i == 2 {
        Some(Resource::Brick)
    } else if i == 3 {
        Some(Resource::Wheat)
    } else if i == 4 {
        Some(Resource::Wool)
    } else {
        None
    }
}

impl Resource {
    pub const ALL: [Resource; 5] = [
        Resource::Wood,
        Resource::Stone,
        Resource::Brick,
        Resource::Wheat,
        Resource::Wool,
    ];

    pub fn index(self) -> (i: usize)
        ensures
            i == resource_slot(self),
            i < 5,
    {
        match self {
            Resource::Wood => 0,
            Resource::Stone => 1,
            Resource::Brick => 2,
            Resource::Wheat => 3,
            Resource::Wool => 4,
        }
    }

    pub fn from_index(index: usize) -> (r: Option<Resource>)
        ensures
            r == slot_resource(index as int),
    {
        match index {
            0 => Some(Resource::Wood),
            1 => Some(Resource::Stone),
            2 => Some(Resource::Brick),
            3 => Some(Resource::Wheat),
            4 => Some(Resource::Wool),
            _ => None,
        }
    }
}

/// A slot and its resource name each other: the two mappings are inverse.
pub proof fn law_slot_roundtrip(r: Resource, i: int)
    ensures
        slot_resource(resource_slot(r)) == Some(r),
        slot_resource(i) is Some ==> resource_slot(slot_resource(i)->0) == i,
        slot_resource(i) is Some <==> 0 <= i < 5,
{
}

} // verus!
