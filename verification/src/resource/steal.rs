use vstd::prelude::*;

use crate::player::PlayerId;

verus! {

/// A card taken from a victim: the victim and the index of the card.
pub struct Steal {
    victim: PlayerId,
    resource: Option<u8>,
}

impl Steal {
    pub closed spec fn spec_victim(&self) -> PlayerId {
        self.victim
    }

    pub closed spec fn spec_resource(&self) -> Option<u8> {
        self.resource
    }

    pub fn new(victim: PlayerId, resource: Option<u8>) -> (s: Steal)
        ensures
            s.spec_victim() == victim,
            s.spec_resource() == resource,
    {
        Steal { victim, resource }
    }

    pub fn victim(&self) -> (p: PlayerId)
        ensures
            p == self.spec_victim(),
    {
        self.victim
    }

    pub fn resource(&self) -> (r: Option<u8>)
        ensures
            r == self.spec_resource(),
    {
        self.resource
    }
}

} // verus!
