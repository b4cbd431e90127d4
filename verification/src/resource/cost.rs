use vstd::prelude::*;

use crate::resource::counts::ResourceCounts;

verus! {

/// What a construction costs.
pub struct Cost(ResourceCounts);

impl View for Cost {
    type V = Seq<u8>;

    closed spec fn view(&self) -> Seq<u8> {
        self.0@
    }
}

/// Wood and brick.
pub open spec fn road_cost() -> Seq<u8> {
    seq![1u8, 0u8, 1u8, 0u8, 0u8]
}

/// Wood, brick, wheat and wool.
pub open spec fn settlement_cost() -> Seq<u8> {
    seq![1u8, 0u8, 1u8, 1u8, 1u8]
}

/// Three stone and two wheat.
pub open spec fn city_cost() -> Seq<u8> {
    seq![0u8, 3u8, 0u8, 2u8, 0u8]
}

/// Stone, wheat and wool.
pub open spec fn dev_card_cost() -> Seq<u8> {
    seq![0u8, 1u8, 0u8, 1u8, 1u8]
}

impl Cost {
    pub fn new(resources: ResourceCounts) -> (c: Cost)
        ensures
            c@ == resources@,
    {
        Cost(resources)
    }

    pub fn resources(&self) -> (r: ResourceCounts)
        ensures
            r@ == self@,
    {
        self.0
    }

    pub fn road() -> (c: Cost)
        ensures
            c@ == road_cost(),
    {
        let c = Cost(ResourceCounts([1, 0, 1, 0, 0]));
        assert(c@ =~= road_cost());
        c
    }

    pub fn settlement() -> (c: Cost)
        ensures
            c@ == settlement_cost(),
    {
        let c = Cost(ResourceCounts([1, 0, 1, 1, 1]));
        assert(c@ =~= settlement_cost());
        c
    }

    pub fn city() -> (c: Cost)
        ensures
            c@ == city_cost(),
    {
        let c = Cost(ResourceCounts([0, 3, 0, 2, 0]));
        assert(c@ =~= city_cost());
        c
    }

    pub fn dev_card() -> (c: Cost)
        ensures
            c@ == dev_card_cost(),
    {
        let c = Cost(ResourceCounts([0, 1, 0, 1, 1]));
        assert(c@ =~= dev_card_cost());
        c
    }
}

} // verus!
