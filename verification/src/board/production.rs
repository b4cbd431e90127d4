use vstd::prelude::*;

use crate::geometry::topology::copy_vec;
use crate::player::PlayerId;
use crate::resource::counts::{plus, sum_fits, ResourceCounts};

verus! {

/// What one player receives from a roll.
#[derive(Debug, Clone, Copy, PartialEq, Eq)]
pub struct Gain {
    pub player: PlayerId,
    pub resources: ResourceCounts,
}

/// A count with nothing in it.
pub open spec fn zero_counts() -> Seq<u8> {
    Seq::new(5, |i: int| 0u8)
}

/// No player has two entries.
pub open spec fn distinct_players(gs: Seq<Gain>) -> bool {
    forall|i: int, j: int| 0 <= i < j < gs.len() ==> gs[i].player != gs[j].player
}

/// Entries come in strictly increasing player order.
pub open spec fn sorted_players(gs: Seq<Gain>) -> bool {
    forall|i: int, j: int| 0 <= i < j < gs.len() ==> gs[i].player.0 < gs[j].player.0
}

/// `p` has an entry.
pub open spec fn lists(gs: Seq<Gain>, p: PlayerId) -> bool {
    exists|i: int| 0 <= i < gs.len() && gs[i].player == p
}

/// The position of `p`'s entry.
pub open spec fn slot_of(gs: Seq<Gain>, p: PlayerId) -> int {
    choose|i: int| 0 <= i < gs.len() && gs[i].player == p
}

/// What `p` receives: the counts of its entry, or nothing.
pub open spec fn gains_of(gs: Seq<Gain>, p: PlayerId) -> Seq<u8> {
    if lists(gs, p) {
        gs[slot_of(gs, p)].resources@
    } else {
        zero_counts()
    }
}

/// Sum of the counts given to `p` by the first `n` entries.
pub open spec fn summed(entries: Seq<(PlayerId, [u8; 5])>, p: PlayerId, n: int) -> Seq<u8>
    decreases n,
{
    if n <= 0 {
        zero_counts()
    } else if entries[n - 1].0 == p {
        plus(summed(entries, p, n - 1), entries[n - 1].1@)
    } else {
        summed(entries, p, n - 1)
    }
}

/// Adding the first `n` entries one by one never overflows a count.
pub open spec fn summed_fits(entries: Seq<(PlayerId, [u8; 5])>) -> bool {
    forall|n: int, p: PlayerId|
        0 <= n < entries.len() && entries[n].0 == p ==> sum_fits(
            #[trigger] summed(entries, p, n),
            entries[n].1@,
        )
}

/// With distinct players, the entry holding `p` is the chosen one.
pub proof fn lemma_slot(gs: Seq<Gain>, p: PlayerId, i: int)
    requires
        distinct_players(gs),
        0 <= i < gs.len(),
        gs[i].player == p,
    ensures
        lists(gs, p),
        slot_of(gs, p) == i,
        gains_of(gs, p) == gs[i].resources@,
{
    assert(lists(gs, p));
    let j = slot_of(gs, p);
    if j != i {
        if j < i {
            assert(gs[j].player != gs[i].player);
        } else {
            assert(gs[i].player != gs[j].player);
        }
    }
}

/// Replacing the resources of one entry keeps every other player's entry.
proof fn lemma_merged(old_gains: Seq<Gain>, new_gains: Seq<Gain>, p: PlayerId, i: int)
    requires
        distinct_players(old_gains),
        0 <= i < old_gains.len(),
        old_gains[i].player == p,
        new_gains.len() == old_gains.len(),
        new_gains[i].player == p,
        forall|k: int| 0 <= k < old_gains.len() && k != i ==> new_gains[k] == old_gains[k],
    ensures
        distinct_players(new_gains),
        forall|q: PlayerId| lists(new_gains, q) <==> lists(old_gains, q) || q == p,
        forall|q: PlayerId| q != p ==> gains_of(new_gains, q) == gains_of(old_gains, q),
        gains_of(new_gains, p) == new_gains[i].resources@,
{
    assert forall|a: int, b: int| 0 <= a < b < new_gains.len() implies new_gains[a].player
        != new_gains[b].player by {
        assert(old_gains[a].player != old_gains[b].player);
    }
    lemma_slot(new_gains, p, i);
    assert forall|q: PlayerId| lists(new_gains, q) <==> lists(old_gains, q) || q == p by {
        if lists(old_gains, q) {
            let k = choose|k: int| 0 <= k < old_gains.len() && old_gains[k].player == q;
            assert(new_gains[k].player == q);
        }
        if lists(new_gains, q) {
            let k = choose|k: int| 0 <= k < new_gains.len() && new_gains[k].player == q;
            assert(old_gains[k].player == q);
        }
    }
    assert forall|q: PlayerId| q != p implies gains_of(new_gains, q) == gains_of(old_gains, q) by {
        if lists(old_gains, q) {
            let k = choose|k: int| 0 <= k < old_gains.len() && old_gains[k].player == q;
            lemma_slot(old_gains, q, k);
            lemma_slot(new_gains, q, k);
        }
    }
}

/// Dropping the first entry of a sorted list keeps every other player's
/// entry and removes the first player.
proof fn lemma_drop_head(gs: Seq<Gain>)
    requires
        sorted_players(gs),
        gs.len() > 0,
    ensures
        sorted_players(gs.drop_first()),
        forall|q: PlayerId| lists(gs.drop_first(), q) <==> lists(gs, q) && q != gs[0].player,
        forall|q: PlayerId| q != gs[0].player ==> gains_of(gs.drop_first(), q) == gains_of(gs, q),
        gains_of(gs, gs[0].player) == gs[0].resources@,
{
    let t = gs.drop_first();
    assert forall|a: int, b: int| 0 <= a < b < t.len() implies t[a].player.0 < t[b].player.0 by {
        assert(t[a] == gs[a + 1] && t[b] == gs[b + 1]);
    }
    assert(distinct_players(gs)) by {
        assert forall|a: int, b: int| 0 <= a < b < gs.len() implies gs[a].player != gs[b].player by {
            assert(gs[a].player.0 < gs[b].player.0);
        }
    }
    assert(distinct_players(t)) by {
        assert forall|a: int, b: int| 0 <= a < b < t.len() implies t[a].player != t[b].player by {
            assert(t[a].player.0 < t[b].player.0);
        }
    }
    lemma_slot(gs, gs[0].player, 0);
    assert forall|q: PlayerId| lists(t, q) <==> lists(gs, q) && q != gs[0].player by {
        if lists(t, q) {
            let k = choose|k: int| 0 <= k < t.len() && t[k].player == q;
            assert(gs[k + 1].player == q);
            assert(gs[0].player.0 < gs[k + 1].player.0);
        }
        if lists(gs, q) && q != gs[0].player {
            let k = choose|k: int| 0 <= k < gs.len() && gs[k].player == q;
            assert(t[k - 1].player == q);
        }
    }
    assert forall|q: PlayerId| q != gs[0].player implies gains_of(t, q) == gains_of(gs, q) by {
        if lists(gs, q) {
            let k = choose|k: int| 0 <= k < gs.len() && gs[k].player == q;
            lemma_slot(gs, q, k);
            assert(t[k - 1] == gs[k]);
            lemma_slot(t, q, k - 1);
        }
    }
}

/// A production is fixed by what it gives: two lists in player order that
/// name the same players and give each of them the same cards are equal.
/// So the same board and the same roll always produce the same production.
pub proof fn law_production_determined(g1: Seq<Gain>, g2: Seq<Gain>)
    requires
        sorted_players(g1),
        sorted_players(g2),
        forall|p: PlayerId| lists(g1, p) <==> lists(g2, p),
        forall|p: PlayerId| gains_of(g1, p) == gains_of(g2, p),
    ensures
        g1 == g2,
    decreases g1.len(),
{
    if g1.len() == 0 {
        if g2.len() > 0 {
            assert(lists(g2, g2[0].player));
        }
        assert(g1 =~= g2);
    } else {
        assert(lists(g1, g1[0].player));
        let j = choose|j: int| 0 <= j < g2.len() && g2[j].player == g1[0].player;
        assert(lists(g2, g2[0].player));
        let i = choose|i: int| 0 <= i < g1.len() && g1[i].player == g2[0].player;
        if j > 0 {
            assert(g2[0].player.0 < g2[j].player.0);
        }
        if i > 0 {
            assert(g1[0].player.0 < g1[i].player.0);
        }
        assert(g1[0].player == g2[0].player);
        lemma_drop_head(g1);
        lemma_drop_head(g2);
        assert forall|p: PlayerId| lists(g1.drop_first(), p) <==> lists(g2.drop_first(), p) by {
            assert(lists(g1, p) <==> lists(g2, p));
        }
        assert forall|p: PlayerId| gains_of(g1.drop_first(), p) == gains_of(g2.drop_first(), p) by {
            if p != g1[0].player {
                assert(gains_of(g1, p) == gains_of(g2, p));
            } else {
                assert(!lists(g1.drop_first(), p) && !lists(g2.drop_first(), p));
            }
        }
        law_production_determined(g1.drop_first(), g2.drop_first());
        assert(g1[0].resources.0 =~= g2[0].resources.0);
        assert(g1[0] == g2[0]);
        assert(g1 =~= g2) by {
            assert forall|k: int| 0 <= k < g1.len() implies g1[k] == g2[k] by {
                if k > 0 {
                    assert(g1[k] == g1.drop_first()[k - 1]);
                    assert(g2[k] == g2.drop_first()[k - 1]);
                }
            }
        }
    }
}

/// The cards that a roll gives, one entry per player who receives any.
#[derive(Debug, PartialEq, Eq)]
pub struct Production {
    gains: Vec<Gain>,
}

impl Clone for Production {
    fn clone(&self) -> (r: Production)
        ensures
            r@ == self@,
    {
        proof {
            use_type_invariant(self);
        }
        Production { gains: copy_vec(&self.gains) }
    }
}

impl View for Production {
    type V = Seq<Gain>;

    closed spec fn view(&self) -> Seq<Gain> {
        self.gains@
    }
}

impl Default for Production {
    fn default() -> (p: Production)
        ensures
            p@ == Seq::<Gain>::empty(),
    {
        Production { gains: Vec::new() }
    }
}

impl Production {
    /// No player has two entries.
    #[verifier::type_invariant]
    closed spec fn inv(self) -> bool {
        distinct_players(self.gains@)
    }

    /// A production holding the given entries, merged per player and sorted.
    pub fn new(entries: &[(PlayerId, [u8; 5])]) -> (production: Production)
        requires
            summed_fits(entries@),
        ensures
            sorted_players(production@),
            forall|p: PlayerId|
                lists(production@, p) <==> exists|k: int|
                    0 <= k < entries@.len() && (#[trigger] entries@[k]).0 == p,
            forall|p: PlayerId|
                gains_of(production@, p) == summed(entries@, p, entries@.len() as int),
    {
        let mut production = Production::default();
        let mut k: usize = 0;
        while k < entries.len()
            invariant
                0 <= k <= entries@.len(),
                summed_fits(entries@),
                distinct_players(production@),
                forall|p: PlayerId|
                    lists(production@, p) <==> exists|i: int| 0 <= i < k && (#[trigger] entries@[i]).0 == p,
                forall|p: PlayerId| gains_of(production@, p) == summed(entries@, p, k as int),
            decreases entries@.len() - k,
        {
            let (player, counts) = entries[k];
            proof {
                assert(entries@[k as int].0 == player);
                assert(sum_fits(summed(entries@, player, k as int), counts@));
            }
            production.add_gain(Gain { player, resources: ResourceCounts::new(counts) });
            k = k + 1;
            proof {
                assert forall|p: PlayerId|
                    lists(production@, p) <==> exists|i: int|
                        0 <= i < k && (#[trigger] entries@[i]).0 == p by {
                    if p == player {
                        assert(entries@[k - 1].0 == p);
                    }
                    if exists|i: int| 0 <= i < k && (#[trigger] entries@[i]).0 == p {
                        let i = choose|i: int| 0 <= i < k && (#[trigger] entries@[i]).0 == p;
                        if i < k - 1 {
                            assert(exists|i2: int| 0 <= i2 < k - 1 && (#[trigger] entries@[i2]).0 == p);
                        }
                    }
                }
            }
        }
        production.sort();
        proof {
            assert forall|p: PlayerId|
                gains_of(production@, p) == summed(entries@, p, entries@.len() as int) by {
                let _ = gains_of(production@, p);
            }
        }
        production
    }

    /// Adds `gain` to its player's entry, or appends it as a new entry.
    pub fn add_gain(&mut self, gain: Gain)
        requires
            sum_fits(gains_of(old(self)@, gain.player), gain.resources@),
        ensures
            distinct_players(final(self)@),
            forall|q: PlayerId| lists(final(self)@, q) <==> lists(old(self)@, q) || q == gain.player,
            forall|q: PlayerId|
                q != gain.player ==> gains_of(final(self)@, q) == gains_of(old(self)@, q),
            gains_of(final(self)@, gain.player) == plus(
                gains_of(old(self)@, gain.player),
                gain.resources@,
            ),
            final(self)@.len() == old(self)@.len() + (if lists(old(self)@, gain.player) {
                0int
            } else {
                1int
            }),
            forall|i: int|
                0 <= i < old(self)@.len() ==> (#[trigger] final(self)@[i]).player == old(self)@[i].player,
            forall|i: int|
                0 <= i < old(self)@.len() && old(self)@[i].player != gain.player ==> (
                #[trigger] final(self)@[i]) == old(self)@[i],
            !lists(old(self)@, gain.player) ==> final(self)@.last() == gain,
    {
        proof {
            use_type_invariant(&*self);
        }
        let mut gains: Vec<Gain> = Vec::new();
        std::mem::swap(&mut gains, &mut self.gains);
        Production::merge(&mut gains, gain);
        self.gains = gains;
    }

    /// Adds `gain` to its player's entry of `gains`, or appends it.
    fn merge(gains: &mut Vec<Gain>, gain: Gain)
        requires
            distinct_players(old(gains)@),
            sum_fits(gains_of(old(gains)@, gain.player), gain.resources@),
        ensures
            distinct_players(final(gains)@),
            forall|q: PlayerId| lists(final(gains)@, q) <==> lists(old(gains)@, q) || q == gain.player,
            forall|q: PlayerId|
                q != gain.player ==> gains_of(final(gains)@, q) == gains_of(old(gains)@, q),
            gains_of(final(gains)@, gain.player) == plus(
                gains_of(old(gains)@, gain.player),
                gain.resources@,
            ),
            final(gains)@.len() == old(gains)@.len() + (if lists(old(gains)@, gain.player) {
                0int
            } else {
                1int
            }),
            forall|i: int|
                0 <= i < old(gains)@.len() ==> (#[trigger] final(gains)@[i]).player == old(gains)@[i].player,
            forall|i: int|
                0 <= i < old(gains)@.len() && old(gains)@[i].player != gain.player ==> (
                #[trigger] final(gains)@[i]) == old(gains)@[i],
            !lists(old(gains)@, gain.player) ==> final(gains)@.last() == gain,
    {
        let ghost old_gains = gains@;
        let mut i: usize = 0;
        while i < gains.len()
            invariant
                0 <= i <= gains@.len(),
                gains@ == old_gains,
                old(gains)@ == old_gains,
                distinct_players(old_gains),
                sum_fits(gains_of(old_gains, gain.player), gain.resources@),
                forall|k: int| 0 <= k < i ==> old_gains[k].player != gain.player,
            decreases gains@.len() - i,
        {
            if gains[i].player == gain.player {
                proof {
                    lemma_slot(old_gains, gain.player, i as int);
                }
                let mut existing = gains[i];
                existing.resources.add(gain.resources);
                gains.set(i, existing);
                proof {
                    lemma_merged(old_gains, gains@, gain.player, i as int);
                }
                return;
            }
            i = i + 1;
        }
        proof {
            assert(!lists(old_gains, gain.player));
        }
        gains.push(gain);
        proof {
            let new_gains = gains@;
            let n = old_gains.len() as int;
            assert forall|a: int, b: int| 0 <= a < b < new_gains.len() implies new_gains[a].player
                != new_gains[b].player by {
                if b < n {
                    assert(old_gains[a].player != old_gains[b].player);
                } else {
                    assert(old_gains[a].player != gain.player);
                }
            }
            lemma_slot(new_gains, gain.player, n);
            assert forall|q: PlayerId| lists(new_gains, q) <==> lists(old_gains, q) || q
                == gain.player by {
                if lists(old_gains, q) {
                    let k = choose|k: int| 0 <= k < old_gains.len() && old_gains[k].player == q;
                    assert(new_gains[k].player == q);
                }
                if lists(new_gains, q) && q != gain.player {
                    let k = choose|k: int| 0 <= k < new_gains.len() && new_gains[k].player == q;
                    assert(old_gains[k].player == q);
                }
            }
            assert forall|q: PlayerId| q != gain.player implies gains_of(new_gains, q) == gains_of(
                old_gains,
                q,
            ) by {
                if lists(old_gains, q) {
                    let k = choose|k: int| 0 <= k < old_gains.len() && old_gains[k].player == q;
                    lemma_slot(old_gains, q, k);
                    lemma_slot(new_gains, q, k);
                }
            }
            assert(plus(zero_counts(), gain.resources@) =~= gain.resources@);
        }
    }

    pub fn gains(&self) -> (r: &[Gain])
        ensures
            r@ == self@,
    {
        self.gains.as_slice()
    }

    /// Orders the entries by player.
    pub fn sort(&mut self)
        ensures
            sorted_players(final(self)@),
            final(self)@.len() == old(self)@.len(),
            forall|g: Gain| final(self)@.contains(g) <==> old(self)@.contains(g),
            forall|p: PlayerId| lists(final(self)@, p) <==> lists(old(self)@, p),
            forall|p: PlayerId| gains_of(final(self)@, p) == gains_of(old(self)@, p),
    {
        proof {
            use_type_invariant(&*self);
        }
        let ghost old_gains = self.gains@;
        let mut sorted: Vec<Gain> = Vec::new();
        let mut i: usize = 0;
        while i < self.gains.len()
            invariant
                0 <= i <= self.gains@.len(),
                self.gains@ == old_gains,
                distinct_players(old_gains),
                sorted.len() == i,
                sorted_players(sorted@),
                forall|g: Gain| sorted@.contains(g) <==> old_gains.take(i as int).contains(g),
            decreases self.gains@.len() - i,
        {
            let g = self.gains[i];
            let mut pos: usize = 0;
            while pos < sorted.len() && sorted[pos].player.0 < g.player.0
                invariant
                    0 <= pos <= sorted@.len(),
                    forall|k: int| 0 <= k < pos ==> sorted@[k].player.0 < g.player.0,
                decreases sorted@.len() - pos,
            {
                pos = pos + 1;
            }
            proof {
                assert forall|k: int| 0 <= k < sorted@.len() implies sorted@[k].player != g.player by {
                    assert(sorted@.contains(sorted@[k]));
                    assert(old_gains.take(i as int).contains(sorted@[k]));
                    let m = choose|m: int|
                        0 <= m < i && old_gains.take(i as int)[m] == sorted@[k];
                    assert(old_gains[m] == sorted@[k]);
                    assert(old_gains[m].player != old_gains[i as int].player);
                }
            }
            let ghost before = sorted@;
            sorted.insert(pos, g);
            proof {
                assert forall|a: int, b: int| 0 <= a < b < sorted@.len() implies sorted@[a].player.0
                    < sorted@[b].player.0 by {
                    if b < pos {
                    } else if b == pos {
                        assert(sorted@[a] == before[a]);
                    } else if a < pos {
                        assert(sorted@[b] == before[b - 1]);
                        if pos < before.len() {
                            assert(before[pos as int].player.0 >= g.player.0);
                            assert(before[pos as int].player != g.player);
                            if b - 1 > pos {
                                assert(before[pos as int].player.0 < before[b - 1].player.0);
                            }
                        }
                    } else if a == pos {
                        assert(before[pos as int].player.0 >= g.player.0);
                        assert(before[pos as int].player != g.player);
                        if b - 1 > pos {
                            assert(before[pos as int].player.0 < before[b - 1].player.0);
                        }
                    } else {
                        assert(sorted@[a] == before[a - 1]);
                        assert(sorted@[b] == before[b - 1]);
                    }
                }
                assert(old_gains.take(i + 1) =~= old_gains.take(i as int).push(g));
                assert forall|x: Gain| sorted@.contains(x) <==> old_gains.take(i + 1).contains(x) by {
                    if sorted@.contains(x) {
                        let k = choose|k: int| 0 <= k < sorted@.len() && sorted@[k] == x;
                        if k < pos {
                            assert(before[k] == x);
                            assert(before.contains(x));
                        } else if k > pos {
                            assert(before[k - 1] == x);
                            assert(before.contains(x));
                        }
                        if x != g {
                            let m = choose|m: int|
                                0 <= m < i && old_gains.take(i as int)[m] == x;
                            assert(old_gains.take(i + 1)[m] == x);
                        } else {
                            assert(old_gains.take(i + 1)[i as int] == x);
                        }
                    }
                    if old_gains.take(i + 1).contains(x) {
                        let ghost taken = old_gains.take(i + 1);
                        let m = choose|m: int| 0 <= m < taken.len() && taken[m] == x;
                        if m < i {
                            assert(old_gains[m] == x);
                            assert(old_gains.take(i as int)[m] == x);
                            assert(before.contains(x));
                            let k = choose|k: int| 0 <= k < before.len() && before[k] == x;
                            if k < pos {
                                assert(sorted@[k] == x);
                            } else {
                                assert(sorted@[k + 1] == x);
                            }
                        } else {
                            assert(sorted@[pos as int] == x);
                        }
                    }
                }
            }
            i = i + 1;
        }
        proof {
            assert(old_gains.take(old_gains.len() as int) =~= old_gains);
        }
        proof {
            let new_gains = sorted@;
            assert forall|a: int, b: int| 0 <= a < b < new_gains.len() implies new_gains[a].player
                != new_gains[b].player by {}
        }
        self.gains = sorted;
        proof {
            let new_gains = self.gains@;
            assert forall|p: PlayerId| lists(new_gains, p) <==> lists(old_gains, p) by {
                if lists(new_gains, p) {
                    let k = choose|k: int| 0 <= k < new_gains.len() && new_gains[k].player == p;
                    assert(new_gains.contains(new_gains[k]));
                    let m = choose|m: int| 0 <= m < old_gains.len() && old_gains[m] == new_gains[k];
                    assert(old_gains[m].player == p);
                }
                if lists(old_gains, p) {
                    let m = choose|m: int| 0 <= m < old_gains.len() && old_gains[m].player == p;
                    assert(old_gains.contains(old_gains[m]));
                    assert(old_gains.take(old_gains.len() as int).contains(old_gains[m]));
                    assert(new_gains.contains(old_gains[m]));
                    let k = choose|k: int| 0 <= k < new_gains.len() && new_gains[k] == old_gains[m];
                    assert(new_gains[k].player == p);
                }
            }
            assert forall|p: PlayerId| gains_of(new_gains, p) == gains_of(old_gains, p) by {
                if lists(old_gains, p) {
                    let m = choose|m: int| 0 <= m < old_gains.len() && old_gains[m].player == p;
                    assert(old_gains.contains(old_gains[m]));
                    assert(old_gains.take(old_gains.len() as int).contains(old_gains[m]));
                    assert(new_gains.contains(old_gains[m]));
                    let k = choose|k: int| 0 <= k < new_gains.len() && new_gains[k] == old_gains[m];
                    lemma_slot(old_gains, p, m);
                    lemma_slot(new_gains, p, k);
                }
            }
        }
    }
}

} // verus!
