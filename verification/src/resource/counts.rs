use vstd::prelude::*;

use crate::resource::{resource_slot, Resource};

verus! {

/// Sum of the five slots of a count.
pub open spec fn total(s: Seq<u8>) -> int {
    s[0] + s[1] + s[2] + s[3] + s[4]
}

/// Sum of the first `k` slots of a count.
pub open spec fn prefix_total(s: Seq<u8>, k: int) -> int
    decreases k,
{
    if k <= 0 {
        0
    } else {
        prefix_total(s, k - 1) + s[k - 1]
    }
}

/// Every slot of `a` holds at least as much as the same slot of `b`.
pub open spec fn covers_all(a: Seq<u8>, b: Seq<u8>) -> bool {
    forall|i: int| 0 <= i < 5 ==> a[i] >= b[i]
}

/// No slot of `a + b` goes past what a `u8` holds.
pub open spec fn sum_fits(a: Seq<u8>, b: Seq<u8>) -> bool {
    forall|i: int| 0 <= i < 5 ==> a[i] + b[i] <= u8::MAX
}

/// Slot-wise sum.
pub open spec fn plus(a: Seq<u8>, b: Seq<u8>) -> Seq<u8> {
    Seq::new(5, |i: int| (a[i] + b[i]) as u8)
}

/// Slot-wise difference.
pub open spec fn minus(a: Seq<u8>, b: Seq<u8>) -> Seq<u8> {
    Seq::new(5, |i: int| (a[i] - b[i]) as u8)
}

/// A count holding one card in slot `k` and nothing else.
pub open spec fn one_card(k: int) -> Seq<u8> {
    Seq::new(5, |i: int| if i == k { 1u8 } else { 0u8 })
}

/// The slot in which card number `n` (counting from zero, slot by slot)
/// of the count `s` lies.
pub open spec fn card_slot(s: Seq<u8>, n: int, k: int) -> bool {
    0 <= k < 5 && prefix_total(s, k) <= n < prefix_total(s, k + 1)
}

/// Each card of a count lies in exactly one slot, so the card picked by
/// its number is determined.
pub proof fn law_card_slot_unique(s: Seq<u8>, n: int, k1: int, k2: int)
    requires
        s.len() == 5,
        card_slot(s, n, k1),
        card_slot(s, n, k2),
    ensures
        k1 == k2,
{
    reveal_with_fuel(prefix_total, 6);
    assert(forall|a: int, b: int| 0 <= a <= b <= 5 ==> prefix_total(s, a) <= prefix_total(s, b));
}

/// A count of each of the five resources.
#[derive(Debug, Clone, Copy, PartialEq, Eq)]
pub struct ResourceCounts(pub [u8; 5]);

impl View for ResourceCounts {
    type V = Seq<u8>;

    open spec fn view(&self) -> Seq<u8> {
        self.0@
    }
}

impl Default for ResourceCounts {
    fn default() -> (r: ResourceCounts)
        ensures
            r@ == seq![0u8, 0u8, 0u8, 0u8, 0u8],
    {
        ResourceCounts([0, 0, 0, 0, 0])
    }
}

impl ResourceCounts {
    pub fn new(counts: [u8; 5]) -> (r: ResourceCounts)
        ensures
            r@ == counts@,
    {
        ResourceCounts(counts)
    }

    pub fn amount(&self, r: Resource) -> (n: u8)
        ensures
            n == self@[resource_slot(r)],
    {
        self.0[r.index()]
    }

    pub fn add(&mut self, resources: ResourceCounts)
        requires
            sum_fits(old(self)@, resources@),
        ensures
            final(self)@ == plus(old(self)@, resources@),
    {
        let mut i: usize = 0;
        while i < 5
            invariant
                0 <= i <= 5,
                sum_fits(old(self)@, resources@),
                self@.len() == 5,
                forall|j: int| 0 <= j < i ==> self@[j] == old(self)@[j] + resources@[j],
                forall|j: int| i <= j < 5 ==> self@[j] == old(self)@[j],
            decreases 5 - i,
        {
            self.0[i] = self.0[i] + resources.0[i];
            i = i + 1;
        }
        assert(self@ =~= plus(old(self)@, resources@));
    }

    pub fn count(&self) -> (n: u8)
        requires
            total(self@) <= u8::MAX,
        ensures
            n == total(self@),
    {
        self.0[0] + self.0[1] + self.0[2] + self.0[3] + self.0[4]
    }

    pub fn covers(&self, other: &Self) -> (b: bool)
        ensures
            b == covers_all(self@, other@),
    {
        let mut i: usize = 0;
        while i < 5
            invariant
                0 <= i <= 5,
                forall|j: int| 0 <= j < i ==> self@[j] >= other@[j],
            decreases 5 - i,
        {
            if self.0[i] < other.0[i] {
                return false;
            }
            i = i + 1;
        }
        true
    }

    pub fn try_subtract(&mut self, other: &Self) -> (b: bool)
        ensures
            b == covers_all(old(self)@, other@),
            b ==> final(self)@ == minus(old(self)@, other@),
            !b ==> *final(self) == *old(self),
    {
        if self.covers(other) {
            let mut i: usize = 0;
            while i < 5
                invariant
                    0 <= i <= 5,
                    covers_all(old(self)@, other@),
                    self@.len() == 5,
                    forall|j: int| 0 <= j < i ==> self@[j] == old(self)@[j] - other@[j],
                    forall|j: int| i <= j < 5 ==> self@[j] == old(self)@[j],
                decreases 5 - i,
            {
                self.0[i] = self.0[i] - other.0[i];
                i = i + 1;
            }
            assert(self@ =~= minus(old(self)@, other@));
            true
        } else {
            false
        }
    }

    /// The card of index `index` (taken modulo the number of cards), as a
    /// count holding that single card.
    pub fn get_resource(&self, index: u8) -> (r: ResourceCounts)
        requires
            0 < total(self@) <= u8::MAX,
        ensures
            exists|k: int| card_slot(self@, (index as int) % total(self@), k) && r@ == one_card(k),
    {
        proof {
            reveal_with_fuel(prefix_total, 6);
        }
        let n = self.count();
        let target = index % n;
        let mut seen: u8 = 0;
        let mut k: usize = 0;
        while k < 4 && (target as u16) >= (seen as u16) + (self.0[k] as u16)
            invariant
                0 <= k <= 4,
                seen == prefix_total(self@, k as int),
                seen <= target,
                target < total(self@),
                total(self@) <= u8::MAX,
                total(self@) == prefix_total(self@, 5),
                forall|j: int| 0 <= j <= 5 ==> prefix_total(self@, j) <= total(self@),
                forall|j: int| 0 <= j < 5 ==> #[trigger] prefix_total(self@, j + 1) == prefix_total(self@, j) + self@[j],
            decreases 4 - k,
        {
            seen = seen + self.0[k];
            k = k + 1;
        }
        let mut result: [u8; 5] = [0, 0, 0, 0, 0];
        result[k] = 1;
        assert(card_slot(self@, (index as int) % total(self@), k as int));
        assert(result@ =~= one_card(k as int));
        ResourceCounts(result)
    }
}

} // verus!
