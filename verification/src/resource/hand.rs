use vstd::prelude::*;

use crate::resource::cost::Cost;
use crate::resource::{resource_slot, Resource};
use crate::resource::counts::{
    card_slot, covers_all, minus, one_card, plus, sum_fits, total, ResourceCounts,
};

verus! {

/// Why a hand could not give what was asked of it.
#[derive(Debug, Clone, Copy, PartialEq, Eq, Structural)]
pub enum ResourceError {
    NotEnoughResources,
    IsEmpty,
}

impl ResourceError {
    /// The text that explains the error.
    pub open spec fn text(self) -> Seq<char> {
        match self {
            ResourceError::NotEnoughResources => "Not enough resources"@,
            ResourceError::IsEmpty => "Resource is empty"@,
        }
    }

    /// Explains the error to a player.
    pub fn message(&self) -> (r: String)
        ensures
            r@ == self.text(),
    {
        match self {
            ResourceError::NotEnoughResources => String::from_str("Not enough resources"),
            ResourceError::IsEmpty => String::from_str("Resource is empty"),
        }
    }
}

/// The resource cards a player holds.
pub struct Hand(ResourceCounts);

impl View for Hand {
    type V = Seq<u8>;

    closed spec fn view(&self) -> Seq<u8> {
        self.0@
    }
}

impl Default for Hand {
    fn default() -> (h: Hand)
        ensures
            h@ == seq![0u8, 0u8, 0u8, 0u8, 0u8],
    {
        Hand(ResourceCounts::default())
    }
}

impl Hand {
    /// A hand holding exactly `resources`.
    pub fn new(resources: ResourceCounts) -> (h: Hand)
        ensures
            h@ == resources@,
    {
        Hand(resources)
    }

    /// Pays `cost` if the hand covers it; a refused payment takes nothing.
    pub fn pay(&mut self, cost: &Cost) -> (r: Result<(), ResourceError>)
        ensures
            r is Ok <==> covers_all(old(self)@, cost@),
            r is Ok ==> final(self)@ == minus(old(self)@, cost@),
            r is Err ==> r == Err::<(), ResourceError>(ResourceError::NotEnoughResources)
                && final(self)@ == old(self)@,
    {
        if !self.0.try_subtract(&cost.resources()) {
            return Err(ResourceError::NotEnoughResources);
        }
        Ok(())
    }

    pub fn resources(&self) -> (r: ResourceCounts)
        ensures
            r@ == self@,
    {
        self.0
    }

    /// How many cards of `resource` the hand holds.
    pub fn amount(&self, resource: Resource) -> (n: u8)
        ensures
            n == self@[resource_slot(resource)],
    {
        self.0.amount(resource)
    }

    pub fn count(&self) -> (n: u8)
        requires
            total(self@) <= u8::MAX,
        ensures
            n == total(self@),
    {
        self.0.count()
    }

    pub fn add(&mut self, resources: ResourceCounts)
        requires
            sum_fits(old(self)@, resources@),
        ensures
            final(self)@ == plus(old(self)@, resources@),
    {
        self.0.add(resources);
    }

    pub fn is_empty(&self) -> (b: bool)
        requires
            total(self@) <= u8::MAX,
        ensures
            b == (total(self@) == 0),
    {
        self.count() == 0
    }

    /// The card of index `index` (modulo the hand's size), or `IsEmpty`.
    pub fn get_resource(&self, index: u8) -> (r: Result<ResourceCounts, ResourceError>)
        requires
            total(self@) <= u8::MAX,
        ensures
            r is Err <==> total(self@) == 0,
            r is Err ==> r == Err::<ResourceCounts, ResourceError>(ResourceError::IsEmpty),
            r matches Ok(c) ==> exists|k: int|
                card_slot(self@, (index as int) % total(self@), k) && c@ == one_card(k),
    {
        if self.is_empty() {
            Err(ResourceError::IsEmpty)
        } else {
            Ok(self.0.get_resource(index))
        }
    }
}

} // verus!
