use vstd::prelude::*;

use crate::resource::cost::Cost;
use crate::resource::counts::{covers_all, minus, plus, sum_fits, total, ResourceCounts};
use crate::resource::hand::{Hand, ResourceError};

verus! {

#[derive(Debug, Clone, Copy, PartialEq, Eq, Structural)]
pub enum PlayerColor {
    Red,
    Blue,
    White,
    Orange,
}

/// A player, named by its place in the game's list of players.
#[derive(Debug, Clone, Copy, PartialEq, Eq, Hash, Structural)]
pub struct PlayerId(pub usize);

impl PlayerId {
    pub fn new(id: usize) -> (p: PlayerId)
        ensures
            p.0 == id,
    {
        PlayerId(id)
    }

    pub fn value(self) -> (v: usize)
        ensures
            v == self.0,
    {
        self.0
    }
}

/// What a player is, as the contracts see it.
pub struct PlayerView {
    pub color: PlayerColor,
    pub hand: Seq<u8>,
    pub score: u8,
}

pub struct Player {
    color: PlayerColor,
    hand: Hand,
    score: u8,
}

impl View for Player {
    type V = PlayerView;

    closed spec fn view(&self) -> PlayerView {
        PlayerView { color: self.color, hand: self.hand@, score: self.score }
    }
}

impl Player {
    pub fn new(color: PlayerColor) -> (p: Player)
        ensures
            p@.color == color,
            p@.hand == seq![0u8, 0u8, 0u8, 0u8, 0u8],
            p@.score == 0,
    {
        Player { color, hand: Hand::default(), score: 0 }
    }

    pub fn color(&self) -> (c: PlayerColor)
        ensures
            c == self@.color,
    {
        self.color
    }

    pub fn hand(&self) -> (h: &Hand)
        ensures
            h@ == self@.hand,
    {
        &self.hand
    }

    pub(crate) fn receive(&mut self, resources: ResourceCounts)
        requires
            sum_fits(old(self)@.hand, resources@),
        ensures
            final(self)@ == (PlayerView { hand: plus(old(self)@.hand, resources@), ..old(self)@ }),
    {
        self.hand.add(resources);
    }

    /// Pays `cost` from the hand; a refused payment takes nothing.
    pub(crate) fn pay(&mut self, cost: &Cost) -> (r: Result<(), ResourceError>)
        ensures
            r is Ok <==> covers_all(old(self)@.hand, cost@),
            r is Ok ==> final(self)@ == (PlayerView {
                hand: minus(old(self)@.hand, cost@),
                ..old(self)@
            }),
            r is Err ==> r == Err::<(), ResourceError>(ResourceError::NotEnoughResources)
                && final(self)@ == old(self)@,
    {
        self.hand.pay(cost)
    }

    /// Whether the hand covers `cost`; nothing is taken either way.
    pub fn can_pay(&self, cost: &Cost) -> (r: Result<(), ResourceError>)
        ensures
            r is Ok <==> covers_all(self@.hand, cost@),
            r is Err ==> r == Err::<(), ResourceError>(ResourceError::NotEnoughResources),
    {
        if self.hand.resources().covers(&cost.resources()) {
            Ok(())
        } else {
            Err(ResourceError::NotEnoughResources)
        }
    }

    pub fn score(&self) -> (s: u8)
        ensures
            s == self@.score,
    {
        self.score
    }

    pub(crate) fn add_score(&mut self, amount: u8)
        requires
            old(self)@.score + amount <= u8::MAX,
        ensures
            final(self)@ == (PlayerView { score: (old(self)@.score + amount) as u8, ..old(self)@ }),
    {
        self.score = self.score + amount;
    }

    pub(crate) fn remove_score(&mut self, amount: u8)
        requires
            old(self)@.score >= amount,
        ensures
            final(self)@ == (PlayerView { score: (old(self)@.score - amount) as u8, ..old(self)@ }),
    {
        self.score = self.score - amount;
    }
}

} // verus!
