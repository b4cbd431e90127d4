use vstd::prelude::*;

pub mod laws;

use crate::board::{
    around, building_check, production_fits, production_for, road_check, robber_check,
    upgrade_check, Board, BoardView, Building, BuildingKind, InvalidAction, InvalidBoard,
    Production, Terrain,
};
use crate::board::invariants::{building_points, points, roads_connected, spaced};
use crate::board::production::{gains_of, lists, sorted_players};
use crate::geometry::{EdgeId, TileId, VertexId};
use crate::player::{Player, PlayerId, PlayerView};
use crate::resource::cost::{city_cost, road_cost, settlement_cost, Cost};
use crate::resource::counts::{covers_all, minus, one_card, plus, sum_fits, total, ResourceCounts};
use crate::resource::{resource_slot, Resource};
use crate::roll::{roll_total, Roll};
use crate::scenario::{same_distribution, Scenario, ScenarioView};

verus! {

/// The statuses, without the data some of them carry.
#[derive(Debug, Clone, Copy, PartialEq, Eq, Structural)]
pub enum StatusKind {
    Starting,
    FirstPlacementSettlement,
    FirstPlacementRoad,
    SecondPlacementSettlement,
    SecondPlacementRoad,
    AwaitingRoll,
    AwaitingDiscard,
    AwaitingNewRobberLocation,
    PlayingActions,
    End,
}

/// What the game expects next.
#[derive(Debug, Clone, Copy, PartialEq)]
pub enum GameStatus {
    Starting,
    FirstPlacementSettlement,
    FirstPlacementRoad,
    SecondPlacementSettlement,
    SecondPlacementRoad,
    AwaitingRoll,
    AwaitingDiscard { must_discard: [u8; 6] },
    AwaitingNewRobberLocation,
    PlayingActions,
    End { winner: PlayerId },
}

pub open spec fn status_kind(s: GameStatus) -> StatusKind {
    match s {
        GameStatus::Starting => StatusKind::Starting,
        GameStatus::FirstPlacementSettlement => StatusKind::FirstPlacementSettlement,
        GameStatus::FirstPlacementRoad => StatusKind::FirstPlacementRoad,
        GameStatus::SecondPlacementSettlement => StatusKind::SecondPlacementSettlement,
        GameStatus::SecondPlacementRoad => StatusKind::SecondPlacementRoad,
        GameStatus::AwaitingRoll => StatusKind::AwaitingRoll,
        GameStatus::AwaitingDiscard { .. } => StatusKind::AwaitingDiscard,
        GameStatus::AwaitingNewRobberLocation => StatusKind::AwaitingNewRobberLocation,
        GameStatus::PlayingActions => StatusKind::PlayingActions,
        GameStatus::End { .. } => StatusKind::End,
    }
}

impl GameStatus {
    pub fn kind(&self) -> (k: StatusKind)
        ensures
            k == status_kind(*self),
    {
        match self {
            GameStatus::Starting => StatusKind::Starting,
            GameStatus::FirstPlacementSettlement => StatusKind::FirstPlacementSettlement,
            GameStatus::FirstPlacementRoad => StatusKind::FirstPlacementRoad,
            GameStatus::SecondPlacementSettlement => StatusKind::SecondPlacementSettlement,
            GameStatus::SecondPlacementRoad => StatusKind::SecondPlacementRoad,
            GameStatus::AwaitingRoll => StatusKind::AwaitingRoll,
            GameStatus::AwaitingDiscard { .. } => StatusKind::AwaitingDiscard,
            GameStatus::AwaitingNewRobberLocation => StatusKind::AwaitingNewRobberLocation,
            GameStatus::PlayingActions => StatusKind::PlayingActions,
            GameStatus::End { .. } => StatusKind::End,
        }
    }
}

/// Points at which a player wins.
pub const VICTORY_POINTS: u8 = 10;

/// Why the game refused an action.
#[derive(Debug, Clone, PartialEq, Eq, Structural)]
pub enum GameError {
    BoardInitialization(InvalidBoard),
    Placement(InvalidAction),
    NotEnoughResources,
    NotYourTurn,
    GameOver,
    GameIsStarting,
    GameIsNotPlaying,
    WrongRollCount,
    TiedRolls,
    NotEnoughPlayers,
    TooManyPlayers,
    PlayerNotFound(PlayerId),
    TurnDrivenByPlacement,
    InvalidGameStatus,
    PlayerDontNeedToDiscard,
    InvalidDiscardCount,
}

impl From<InvalidAction> for GameError {
    /// A move refused by the board is refused by the game.
    fn from(e: InvalidAction) -> (r: GameError) {
        GameError::Placement(e)
    }
}

impl vstd::std_specs::convert::FromSpecImpl<InvalidAction> for GameError {
    open spec fn obeys_from_spec() -> bool {
        true
    }

    open spec fn from_spec(e: InvalidAction) -> GameError {
        GameError::Placement(e)
    }
}

impl From<InvalidBoard> for GameError {
    /// A board that cannot be laid keeps the game from starting.
    fn from(e: InvalidBoard) -> (r: GameError) {
        GameError::BoardInitialization(e)
    }
}

impl vstd::std_specs::convert::FromSpecImpl<InvalidBoard> for GameError {
    open spec fn obeys_from_spec() -> bool {
        true
    }

    open spec fn from_spec(e: InvalidBoard) -> GameError {
        GameError::BoardInitialization(e)
    }
}

/// What a roll did.
#[derive(Debug, Clone, PartialEq, Eq)]
pub enum RollOutcome {
    Production(Production),
    RobberActivated { must_discard: [u8; 6] },
}

/// A game as the contracts see it.
pub struct GameView {
    pub scenario: ScenarioView,
    pub status: GameStatus,
    pub players: Seq<PlayerView>,
    pub turn_order: Seq<PlayerId>,
    pub current_turn: nat,
    pub board: Option<BoardView>,
}

/// Every building and road belongs to a player of the game.
pub open spec fn owners_valid(b: BoardView, n: nat) -> bool {
    &&& forall|v: int|
        0 <= v < b.buildings.len() ==> (#[trigger] b.buildings[v] matches Some(bld) ==> bld.owner.0 < n)
    &&& forall|e: int| 0 <= e < b.roads.len() ==> (#[trigger] b.roads[e] matches Some(p) ==> p.0 < n)
}

impl GameView {
    pub open spec fn n(self) -> nat {
        self.players.len()
    }

    /// The player whose turn it is.
    pub open spec fn current(self) -> PlayerId {
        self.turn_order[self.current_turn as int]
    }

    pub open spec fn hand(self, p: PlayerId) -> Seq<u8> {
        self.players[p.0 as int].hand
    }

    /// The state every action keeps: the game is well laid out, and every
    /// player's score is what their buildings are worth.
    pub open spec fn wf(self) -> bool {
        self.well_laid() && self.scores_counted()
    }

    /// Every player's score is the points of their buildings: one per
    /// settlement and two per city, and none before the board is laid.
    pub open spec fn scores_counted(self) -> bool {
        match self.board {
            None => forall|i: int| 0 <= i < self.n() ==> (#[trigger] self.players[i]).score == 0,
            Some(b) => forall|i: int|
                0 <= i < self.n() ==> (#[trigger] self.players[i]).score == points(
                    b.buildings,
                    PlayerId(i as usize),
                    b.buildings.len() as int,
                ),
        }
    }

    /// The board is laid and `p` is one point short of what its buildings
    /// are worth; every other score is counted.
    pub open spec fn one_point_short(self, p: PlayerId) -> bool {
        match self.board {
            None => false,
            Some(b) => forall|i: int|
                0 <= i < self.n() ==> (#[trigger] self.players[i]).score + (if i == p.0 {
                    1int
                } else {
                    0int
                }) == points(b.buildings, PlayerId(i as usize), b.buildings.len() as int),
        }
    }

    /// Two to six players, a turn order that is a permutation of them,
    /// bounded hands and scores, a board exactly when the game has started,
    /// on which buildings keep their distance, roads are joined to their
    /// owner's buildings and every owner is a player of the game.
    pub open spec fn well_laid(self) -> bool {
        &&& self.scenario.wf()
        &&& 2 <= self.n() <= 6
        &&& self.turn_order.len() == self.n()
        &&& forall|i: int| 0 <= i < self.n() ==> (#[trigger] self.turn_order[i]).0 < self.n()
        &&& forall|i: int, j: int|
            0 <= i < j < self.n() ==> self.turn_order[i] != self.turn_order[j]
        &&& self.current_turn < self.n()
        &&& forall|i: int|
            0 <= i < self.n() ==> (#[trigger] self.players[i]).hand.len() == 5 && total(
                self.players[i].hand,
            ) <= u8::MAX && self.players[i].score <= VICTORY_POINTS
        &&& !(self.status is End) ==> forall|i: int|
            0 <= i < self.n() ==> (#[trigger] self.players[i]).score < VICTORY_POINTS
        &&& (self.status is Starting <==> self.board is None)
        &&& self.board matches Some(b) ==> b.wf() && b.topology == self.scenario.topology
            && owners_valid(b, self.n()) && spaced(b) && roads_connected(b)
        &&& self.status matches GameStatus::AwaitingDiscard { must_discard } ==> forall|i: int|
            self.n() <= i < 6 ==> must_discard[i] == 0
        &&& self.status matches GameStatus::End { winner } ==> winner.0 < self.n()
    }

    pub open spec fn with_status(self, s: GameStatus) -> GameView {
        GameView { status: s, ..self }
    }

    pub open spec fn with_board(self, b: BoardView) -> GameView {
        GameView { board: Some(b), ..self }
    }

    pub open spec fn with_hand(self, p: PlayerId, h: Seq<u8>) -> GameView {
        GameView {
            players: self.players.update(p.0 as int, PlayerView { hand: h, ..self.players[p.0 as int] }),
            ..self
        }
    }

    /// `p` scores `amount` more points, and wins on reaching the victory points.
    pub open spec fn scored(self, p: PlayerId, amount: u8) -> GameView {
        let score = (self.players[p.0 as int].score + amount) as u8;
        let g = GameView {
            players: self.players.update(
                p.0 as int,
                PlayerView { score, ..self.players[p.0 as int] },
            ),
            ..self
        };
        if score >= VICTORY_POINTS {
            g.with_status(GameStatus::End { winner: p })
        } else {
            g
        }
    }
}

/// The placement turn passes on: forward in the first round, backward in
/// the second, and on to the first roll once the second round is over.
pub open spec fn after_placement_road(g: GameView) -> GameView {
    match g.status {
        GameStatus::FirstPlacementRoad => if g.current_turn == g.n() - 1 {
            g.with_status(GameStatus::SecondPlacementSettlement)
        } else {
            GameView {
                current_turn: g.current_turn + 1,
                status: GameStatus::FirstPlacementSettlement,
                ..g
            }
        },
        GameStatus::SecondPlacementRoad => if g.current_turn == 0 {
            g.with_status(GameStatus::AwaitingRoll)
        } else {
            GameView {
                current_turn: (g.current_turn - 1) as nat,
                status: GameStatus::SecondPlacementSettlement,
                ..g
            }
        },
        _ => g,
    }
}

/// A hand after receiving one card of each resource of `rs`.
pub open spec fn credited(h: Seq<u8>, rs: Seq<Resource>) -> Seq<u8>
    decreases rs.len(),
{
    if rs.len() == 0 {
        h
    } else {
        plus(credited(h, rs.drop_last()), one_card(resource_slot(rs.last())))
    }
}

/// What building a road does.
pub open spec fn build_road_spec(g: GameView, p: PlayerId, e: EdgeId) -> (GameView, Result<(), GameError>) {
    let s = g.status;
    if !(s is FirstPlacementRoad || s is SecondPlacementRoad || s is PlayingActions) {
        (g, Err(GameError::InvalidGameStatus))
    } else if p != g.current() {
        (g, Err(GameError::NotYourTurn))
    } else {
        match g.board {
            None => (g, Err(GameError::GameIsStarting)),
            Some(b) => match road_check(b, s, e, p) {
                Err(x) => (g, Err(GameError::Placement(x))),
                Ok(()) => {
                    let b2 = BoardView { roads: b.roads.update(e.0 as int, Some(p)), ..b };
                    if s is PlayingActions {
                        if !covers_all(g.hand(p), road_cost()) {
                            (g, Err(GameError::NotEnoughResources))
                        } else {
                            (g.with_hand(p, minus(g.hand(p), road_cost())).with_board(b2), Ok(()))
                        }
                    } else {
                        (after_placement_road(g.with_board(b2)), Ok(()))
                    }
                },
            },
        }
    }
}

/// What building a settlement does.
pub open spec fn build_settlement_spec(g: GameView, p: PlayerId, v: VertexId) -> (
    GameView,
    Result<(), GameError>,
) {
    let s = g.status;
    if !(s is FirstPlacementSettlement || s is SecondPlacementSettlement || s is PlayingActions) {
        (g, Err(GameError::InvalidGameStatus))
    } else if p != g.current() {
        (g, Err(GameError::NotYourTurn))
    } else {
        match g.board {
            None => (g, Err(GameError::GameIsStarting)),
            Some(b) => match building_check(b, s, v, p) {
                Err(x) => (g, Err(GameError::Placement(x))),
                Ok(()) => {
                    let b2 = BoardView {
                        buildings: b.buildings.update(
                            v.0 as int,
                            Some(Building { kind: BuildingKind::Settlement, owner: p }),
                        ),
                        ..b
                    };
                    if s is FirstPlacementSettlement {
                        (
                            g.with_board(b2).with_status(GameStatus::FirstPlacementRoad).scored(p, 1),
                            Ok(()),
                        )
                    } else if s is SecondPlacementSettlement {
                        (
                            g.with_board(b2).with_hand(
                                p,
                                credited(g.hand(p), around(b, v, b.tiles.len() as int)),
                            ).with_status(GameStatus::SecondPlacementRoad).scored(p, 1),
                            Ok(()),
                        )
                    } else if !covers_all(g.hand(p), settlement_cost()) {
                        (g, Err(GameError::NotEnoughResources))
                    } else {
                        (
                            g.with_hand(p, minus(g.hand(p), settlement_cost())).with_board(
                                b2,
                            ).scored(p, 1),
                            Ok(()),
                        )
                    }
                },
            },
        }
    }
}

/// What turning a settlement into a city does.
pub open spec fn upgrade_spec(g: GameView, p: PlayerId, v: VertexId) -> (GameView, Result<(), GameError>) {
    if !(g.status is PlayingActions) {
        (g, Err(GameError::InvalidGameStatus))
    } else if p != g.current() {
        (g, Err(GameError::NotYourTurn))
    } else {
        match g.board {
            None => (g, Err(GameError::GameIsStarting)),
            Some(b) => match upgrade_check(b, v, p) {
                Err(x) => (g, Err(GameError::Placement(x))),
                Ok(()) => if !covers_all(g.hand(p), city_cost()) {
                    (g, Err(GameError::NotEnoughResources))
                } else {
                    let b2 = BoardView {
                        buildings: b.buildings.update(
                            v.0 as int,
                            Some(Building { kind: BuildingKind::City, owner: p }),
                        ),
                        ..b
                    };
                    (
                        g.with_hand(p, minus(g.hand(p), city_cost())).with_board(b2).scored(p, 1),
                        Ok(()),
                    )
                },
            },
        }
    }
}

/// What moving the robber does.
pub open spec fn move_robber_spec(g: GameView, p: PlayerId, t: TileId) -> (GameView, Result<(), GameError>) {
    if !(g.status is AwaitingNewRobberLocation) {
        (g, Err(GameError::InvalidGameStatus))
    } else if p != g.current() {
        (g, Err(GameError::NotYourTurn))
    } else {
        match g.board {
            None => (g, Err(GameError::GameIsStarting)),
            Some(b) => match robber_check(b, t) {
                Err(x) => (g, Err(GameError::Placement(x))),
                Ok(()) => (
                    g.with_board(BoardView { robber: t, ..b }).with_status(GameStatus::PlayingActions),
                    Ok(()),
                ),
            },
        }
    }
}

/// The cards the second settlement earns fit in its owner's hand.
pub open spec fn credit_fits(g: GameView, v: VertexId) -> bool {
    (g.status is SecondPlacementSettlement && g.board is Some) ==> total(g.hand(g.current()))
        + around(g.board->0, v, g.board->0.tiles.len() as int).len() <= u8::MAX
}

/// Every player's hand after receiving what `roll` produces on `b`.
pub open spec fn rolled_players(g: GameView, b: BoardView, roll: int) -> Seq<PlayerView> {
    Seq::new(
        g.n(),
        |i: int|
            PlayerView {
                hand: plus(g.players[i].hand, production_for(b, roll, PlayerId(i as usize))),
                ..g.players[i]
            },
    )
}

/// Every entry of a discard list is zero.
pub open spec fn all_zero(md: [u8; 6]) -> bool {
    forall|i: int| 0 <= i < 6 ==> md[i] == 0
}

/// What discarding `res` does for player `p`.
pub open spec fn discard_spec(g: GameView, p: PlayerId, res: Seq<u8>) -> (GameView, Result<(), GameError>) {
    match g.status {
        GameStatus::AwaitingDiscard { must_discard } => if p.0 >= g.n() {
            (g, Err(GameError::PlayerNotFound(p)))
        } else if must_discard[p.0 as int] == 0 {
            (g, Err(GameError::PlayerDontNeedToDiscard))
        } else if must_discard[p.0 as int] != total(res) {
            (g, Err(GameError::InvalidDiscardCount))
        } else if !covers_all(g.hand(p), res) {
            (g, Err(GameError::NotEnoughResources))
        } else {
            let md = vstd::array::spec_array_update(must_discard, p.0 as int, 0u8);
            let g2 = g.with_hand(p, minus(g.hand(p), res));
            if all_zero(md) {
                (g2.with_status(GameStatus::AwaitingNewRobberLocation), Ok(()))
            } else {
                (g2.with_status(GameStatus::AwaitingDiscard { must_discard: md }), Ok(()))
            }
        },
        _ => (g, Err(GameError::InvalidGameStatus)),
    }
}

/// What ending a turn does.
pub open spec fn next_player_spec(g: GameView) -> (GameView, Result<(), GameError>) {
    match g.status {
        GameStatus::PlayingActions => (
            GameView {
                current_turn: ((g.current_turn + 1) % g.n()) as nat,
                status: GameStatus::AwaitingRoll,
                ..g
            },
            Ok(()),
        ),
        GameStatus::FirstPlacementSettlement | GameStatus::FirstPlacementRoad
        | GameStatus::SecondPlacementSettlement | GameStatus::SecondPlacementRoad => (
            g,
            Err(GameError::TurnDrivenByPlacement),
        ),
        _ => (g, Err(GameError::InvalidGameStatus)),
    }
}

/// `f` rolled strictly more than everybody else.
pub open spec fn unique_best(rolls: Seq<(u8, u8)>, f: int) -> bool {
    &&& 0 <= f < rolls.len()
    &&& forall|j: int| 0 <= j < rolls.len() && j != f ==> roll_total(rolls[j]) < roll_total(rolls[f])
}

/// The turn order that starts with player `first` and goes round.
pub open spec fn rotation(first: int, n: int) -> Seq<PlayerId> {
    Seq::new(n as nat, |k: int| PlayerId(((first + k) % n) as usize))
}

/// What deciding the turn order from the players' rolls does.
pub open spec fn order_spec(g: GameView, rolls: Seq<(u8, u8)>) -> (GameView, Result<(), GameError>) {
    if !(g.status is Starting) {
        (g, Err(GameError::InvalidGameStatus))
    } else if rolls.len() != g.n() {
        (g, Err(GameError::WrongRollCount))
    } else if exists|f: int| unique_best(rolls, f) {
        (
            GameView {
                turn_order: rotation(choose|f: int| unique_best(rolls, f), g.n() as int),
                ..g
            },
            Ok(()),
        )
    } else {
        (g, Err(GameError::TiedRolls))
    }
}

/// How many cards each player must discard when a seven is rolled: half
/// of a hand of more than seven cards.
pub open spec fn discard_due(g: GameView, i: int) -> u8 {
    if 0 <= i < g.n() && total(g.players[i].hand) > 7 {
        (total(g.players[i].hand) / 2) as u8
    } else {
        0
    }
}

/// Every hand can take what `roll` produces without a count passing what a `u8` holds.
pub open spec fn roll_fits(g: GameView, roll: int) -> bool {
    roll != 7 ==> match g.board {
        Some(b) => production_fits(b, roll) && forall|i: int|
            0 <= i < g.n() ==> sum_fits(
                g.players[i].hand,
                #[trigger] production_for(b, roll, PlayerId(i as usize)),
            ) && total(g.players[i].hand) + total(production_for(b, roll, PlayerId(i as usize)))
                <= u8::MAX,
        None => true,
    }
}

/// A game: the scenario, the players, whose turn it is, what is expected
/// next, and the board once laid.
pub struct Game {
    scenario: Scenario,
    status: GameStatus,
    players: Vec<Player>,
    turn_order: Vec<PlayerId>,
    current_turn: usize,
    board: Option<Board>,
}

pub open spec fn player_views(ps: Seq<Player>) -> Seq<PlayerView> {
    ps.map_values(|p: Player| p@)
}

pub open spec fn board_view(b: Option<Board>) -> Option<BoardView> {
    match b {
        Some(b) => Some(b@),
        None => None,
    }
}

impl View for Game {
    type V = GameView;

    closed spec fn view(&self) -> GameView {
        GameView {
            scenario: self.scenario@,
            status: self.status,
            players: player_views(self.players@),
            turn_order: self.turn_order@,
            current_turn: self.current_turn as nat,
            board: board_view(self.board),
        }
    }
}

impl Game {
    /// A game for two to six fresh players, in the order given, before the
    /// board is laid.
    pub fn new(scenario: Scenario, players: Vec<Player>) -> (r: Result<Game, GameError>)
        requires
            forall|i: int|
                0 <= i < players@.len() ==> (#[trigger] players@[i])@.hand == seq![0u8, 0u8, 0u8, 0u8, 0u8]
                    && players@[i]@.score == 0,
        ensures
            players@.len() < 2 ==> r == Err::<Game, GameError>(GameError::NotEnoughPlayers),
            players@.len() > 6 ==> r == Err::<Game, GameError>(GameError::TooManyPlayers),
            r is Ok <==> 2 <= players@.len() <= 6,
            r matches Ok(g) ==> g@.wf() && g@.scenario == scenario@ && g@.status == GameStatus::Starting
                && g@.players == player_views(players@) && g@.turn_order == Seq::new(
                players@.len(),
                |i: int| PlayerId(i as usize),
            ) && g@.current_turn == 0 && g@.board is None,
    {
        proof {
            use_type_invariant(&scenario);
        }
        if players.len() < 2 {
            return Err(GameError::NotEnoughPlayers);
        }
        if players.len() > 6 {
            return Err(GameError::TooManyPlayers);
        }
        let mut turn_order: Vec<PlayerId> = Vec::new();
        let mut i: usize = 0;
        while i < players.len()
            invariant
                0 <= i <= players@.len(),
                turn_order@ == Seq::new(i as nat, |k: int| PlayerId(k as usize)),
            decreases players@.len() - i,
        {
            turn_order.push(PlayerId::new(i));
            i = i + 1;
            assert(turn_order@ =~= Seq::new(i as nat, |k: int| PlayerId(k as usize)));
        }
        let g = Game {
            scenario,
            status: GameStatus::Starting,
            players,
            turn_order,
            current_turn: 0,
            board: None,
        };
        proof {
            let v = g@;
            assert forall|k: int| 0 <= k < v.n() implies (#[trigger] v.players[k]).hand.len() == 5
                && total(v.players[k].hand) <= u8::MAX && v.players[k].score <= VICTORY_POINTS by {
                assert(v.players[k] == g.players@[k]@);
            }
        }
        Ok(g)
    }

    /// The board, once the game has started.
    pub fn board(&self) -> (r: Result<&Board, GameError>)
        ensures
            self@.board is None ==> r == Err::<&Board, GameError>(GameError::GameIsStarting),
            self@.board matches Some(b) ==> (r matches Ok(x) && x@ == b),
    {
        match &self.board {
            Some(b) => Ok(b),
            None => Err(GameError::GameIsStarting),
        }
    }

    /// What the game expects next.
    pub fn status(&self) -> (s: GameStatus)
        ensures
            s == self@.status,
    {
        self.status
    }

    fn set_status(&mut self, status: GameStatus)
        ensures
            final(self)@ == old(self)@.with_status(status),
    {
        self.status = status;
    }

    /// The player whose turn it is.
    pub fn current_player(&self) -> (p: PlayerId)
        requires
            self@.wf(),
        ensures
            p == self@.current(),
    {
        self.turn_order[self.current_turn]
    }

    /// The player who plays after the current one.
    pub fn get_next_player(&self) -> (p: PlayerId)
        requires
            self@.wf(),
        ensures
            p == self@.turn_order[((self@.current_turn + 1) % self@.n()) as int],
    {
        let n = self.turn_order.len();
        self.turn_order[(self.current_turn + 1) % n]
    }

    /// The players, in the order they were given.
    pub fn players(&self) -> (r: &[Player])
        ensures
            player_views(r@) == self@.players,
    {
        self.players.as_slice()
    }

    /// The player named `player`, if the game has one.
    pub fn get_player(&self, player: PlayerId) -> (r: Option<&Player>)
        ensures
            player.0 < self@.n() ==> (r matches Some(x) && x@ == self@.players[player.0 as int]),
            player.0 >= self@.n() ==> r is None,
    {
        if player.0 < self.players.len() {
            Some(&self.players[player.0])
        } else {
            None
        }
    }

    /// The order in which the players take their turns.
    pub fn turn_order(&self) -> (r: &[PlayerId])
        ensures
            r@ == self@.turn_order,
    {
        self.turn_order.as_slice()
    }

    /// The board variant the game is played on.
    pub fn scenario(&self) -> (r: &Scenario)
        ensures
            r@ == self@.scenario,
    {
        &self.scenario
    }

    fn check_status(&self, authorized: &[StatusKind]) -> (r: Result<(), GameError>)
        ensures
            r is Ok <==> authorized@.contains(status_kind(self@.status)),
            r is Err ==> r == Err::<(), GameError>(GameError::InvalidGameStatus),
    {
        let kind = self.status.kind();
        let mut i: usize = 0;
        while i < authorized.len()
            invariant
                0 <= i <= authorized@.len(),
                kind == status_kind(self@.status),
                forall|k: int| 0 <= k < i ==> authorized@[k] != kind,
            decreases authorized@.len() - i,
        {
            if authorized[i] == kind {
                return Ok(());
            }
            i = i + 1;
        }
        Err(GameError::InvalidGameStatus)
    }

    fn check_player(&self, player: PlayerId) -> (r: Result<(), GameError>)
        requires
            self@.wf(),
        ensures
            r is Ok <==> player == self@.current(),
            r is Err ==> r == Err::<(), GameError>(GameError::NotYourTurn),
    {
        if player == self.current_player() {
            Ok(())
        } else {
            Err(GameError::NotYourTurn)
        }
    }

    fn is_player(&self, player: PlayerId) -> (r: Result<(), GameError>)
        ensures
            r is Ok <==> player.0 < self@.n(),
            r is Err ==> r == Err::<(), GameError>(GameError::PlayerNotFound(player)),
    {
        if player.0 < self.players.len() {
            Ok(())
        } else {
            Err(GameError::PlayerNotFound(player))
        }
    }

    fn end_placement_turn(&mut self)
        requires
            old(self)@.wf(),
        ensures
            final(self)@ == after_placement_road(old(self)@),
    {
        match self.status {
            GameStatus::FirstPlacementRoad => {
                if self.current_turn == self.turn_order.len() - 1 {
                    self.status = GameStatus::SecondPlacementSettlement;
                } else {
                    self.current_turn = self.current_turn + 1;
                    self.status = GameStatus::FirstPlacementSettlement;
                }
            },
            GameStatus::SecondPlacementRoad => {
                if self.current_turn == 0 {
                    self.status = GameStatus::AwaitingRoll;
                } else {
                    self.current_turn = self.current_turn - 1;
                    self.status = GameStatus::SecondPlacementSettlement;
                }
            },
            _ => {},
        }
    }

    /// Ends the turn of the player who has played: the next one must roll.
    pub fn next_player(&mut self) -> (r: Result<(), GameError>)
        requires
            old(self)@.wf(),
        ensures
            (final(self)@, r) == next_player_spec(old(self)@),
            final(self)@.wf(),
    {
        match self.status {
            GameStatus::PlayingActions => {
                self.current_turn = (self.current_turn + 1) % self.turn_order.len();
                self.set_status(GameStatus::AwaitingRoll);
                Ok(())
            },
            GameStatus::FirstPlacementSettlement | GameStatus::FirstPlacementRoad
            | GameStatus::SecondPlacementSettlement | GameStatus::SecondPlacementRoad => {
                Err(GameError::TurnDrivenByPlacement)
            },
            _ => Err(GameError::InvalidGameStatus),
        }
    }

    /// `player` scores one point, and wins on reaching the victory points.
    fn score_point(&mut self, player: PlayerId)
        requires
            player.0 < old(self)@.n(),
            old(self)@.players[player.0 as int].score < VICTORY_POINTS,
        ensures
            final(self)@ == old(self)@.scored(player, 1),
    {
        let ghost g = self@;
        self.players[player.0].add_score(1);
        assert(player_views(self.players@) =~= g.players.update(
            player.0 as int,
            PlayerView { score: (g.players[player.0 as int].score + 1) as u8, ..g.players[player.0 as int] },
        ));
        if self.players[player.0].score() >= VICTORY_POINTS {
            self.set_status(GameStatus::End { winner: player });
        }
    }

    /// Builds a settlement: in the opening rounds for free (the second one
    /// earns a card from each producing tile around it), in play paid with
    /// wood, brick, wheat and wool. It scores a point. A refused settlement
    /// changes nothing.
    pub fn build_settlement(&mut self, player_id: PlayerId, vertex: VertexId) -> (r: Result<(), GameError>)
        requires
            old(self)@.wf(),
            credit_fits(old(self)@, vertex),
        ensures
            (final(self)@, r) == build_settlement_spec(old(self)@, player_id, vertex),
            final(self)@.wf(),
    {
        proof {
            lemma_build_settlement_wf(self@, player_id, vertex);
        }
        let kinds = [
            StatusKind::FirstPlacementSettlement,
            StatusKind::SecondPlacementSettlement,
            StatusKind::PlayingActions,
        ];
        assert(kinds@ == seq![
            StatusKind::FirstPlacementSettlement,
            StatusKind::SecondPlacementSettlement,
            StatusKind::PlayingActions,
        ]);
        match self.check_status(kinds.as_slice()) {
            Ok(()) => {},
            Err(e) => {
                return Err(e);
            },
        }
        match self.check_player(player_id) {
            Ok(()) => {},
            Err(e) => {
                return Err(e);
            },
        }
        assert(player_id.0 < self@.n());
        let status = self.status;
        let ghost g = self@;
        let rs: Vec<Resource> = match &mut self.board {
            None => {
                return Err(GameError::GameIsStarting);
            },
            Some(board) => {
                match status {
                    GameStatus::PlayingActions => {
                        match board.can_place_building(status, vertex, player_id) {
                            Ok(()) => {},
                            Err(x) => {
                                return Err(GameError::Placement(x));
                            },
                        }
                        let ghost old_players = self.players@;
                        match self.players[player_id.0].pay(&Cost::settlement()) {
                            Ok(()) => {},
                            Err(_) => {
                                assert(player_views(self.players@) =~= player_views(old_players));
                                return Err(GameError::NotEnoughResources);
                            },
                        }
                        let _ = board.place_settlement(status, vertex, player_id);
                        assert(player_views(self.players@) =~= g.with_hand(
                            player_id,
                            minus(g.hand(player_id), settlement_cost()),
                        ).players);
                        Vec::new()
                    },
                    _ => {
                        match board.place_settlement(status, vertex, player_id) {
                            Ok(()) => {},
                            Err(x) => {
                                return Err(GameError::Placement(x));
                            },
                        }
                        match status {
                            GameStatus::SecondPlacementSettlement => board.resources_around(vertex),
                            _ => Vec::new(),
                        }
                    },
                }
            },
        };
        match status {
            GameStatus::FirstPlacementSettlement => {
                self.set_status(GameStatus::FirstPlacementRoad);
            },
            GameStatus::SecondPlacementSettlement => {
                let ghost b = g.board->0;
                let ghost b2 = self@.board->0;
                proof {
                    lemma_around_same(b2, b, vertex, b.tiles.len() as int);
                }
                assert(rs@ == around(b, vertex, b.tiles.len() as int));
                let ghost h0 = g.hand(player_id);
                proof {
                    assert(rs@.take(0) =~= Seq::<Resource>::empty());
                    assert(g.with_hand(player_id, credited(h0, rs@.take(0))).players =~= g.players);
                }
                let mut j: usize = 0;
                while j < rs.len()
                    invariant
                        0 <= j <= rs@.len(),
                        player_id.0 < self@.n(),
                        self@.n() == g.n(),
                        g.wf(),
                        h0 == g.hand(player_id),
                        h0.len() == 5,
                        total(h0) + rs@.len() <= u8::MAX,
                        self@.status == g.status,
                        self@.scenario == g.scenario,
                        self@.turn_order == g.turn_order,
                        self@.current_turn == g.current_turn,
                        self@.board == Some(b2),
                        self@.players == g.with_hand(player_id, credited(h0, rs@.take(j as int))).players,
                    decreases rs@.len() - j,
                {
                    let mut counts: [u8; 5] = [0, 0, 0, 0, 0];
                    counts[rs[j].index()] = 1;
                    let ghost before = self.players@;
            let ghost before_view = self@;
                    proof {
                        lemma_credited(h0, rs@.take(j as int));
                        assert(counts@ =~= one_card(resource_slot(rs@[j as int])));
                        assert(before[player_id.0 as int]@ == self@.players[player_id.0 as int]);
                    }
                    self.players[player_id.0].receive(ResourceCounts::new(counts));
                    proof {
                        assert(rs@.take(j + 1).drop_last() =~= rs@.take(j as int));
                        assert(rs@.take(j + 1).last() == rs@[j as int]);
                        let pi = player_id.0 as int;
                        assert(credited(h0, rs@.take(j + 1)) == plus(
                            credited(h0, rs@.take(j as int)),
                            one_card(resource_slot(rs@[j as int])),
                        ));
                        assert(self.players@[pi]@.hand == plus(before[pi]@.hand, counts@));
                        assert(before[pi]@.hand == credited(h0, rs@.take(j as int)));
                        assert(self.players@[pi]@ == PlayerView {
                            hand: credited(h0, rs@.take(j + 1)),
                            ..g.players[pi]
                        });
                        assert(player_views(before) == g.with_hand(
                            player_id,
                            credited(h0, rs@.take(j as int)),
                        ).players);
                        assert forall|k: int| 0 <= k < self.players@.len() && k != pi implies player_views(
                            self.players@,
                        )[k] == g.players[k] by {
                            assert(self.players@[k] == before[k]);
                            assert(player_views(before)[k] == before[k]@);
                        }
                        assert(player_views(self.players@).len() == g.players.len());
                        assert(player_views(self.players@) =~= g.with_hand(
                            player_id,
                            credited(h0, rs@.take(j + 1)),
                        ).players);
                    }
                    j = j + 1;
                }
                assert(rs@.take(rs@.len() as int) =~= rs@);
                self.set_status(GameStatus::SecondPlacementRoad);
            },
            _ => {},
        }
        self.score_point(player_id);
        Ok(())
    }

    /// Turns the player's settlement into a city, paid with three stone and
    /// two wheat; it scores a point. A refused upgrade changes nothing.
    pub fn upgrade_settlement_to_city(&mut self, player_id: PlayerId, vertex: VertexId) -> (r: Result<
        (),
        GameError,
    >)
        requires
            old(self)@.wf(),
        ensures
            (final(self)@, r) == upgrade_spec(old(self)@, player_id, vertex),
            final(self)@.wf(),
    {
        proof {
            lemma_upgrade_wf(self@, player_id, vertex);
        }
        let kinds = [StatusKind::PlayingActions];
        assert(kinds@ == seq![StatusKind::PlayingActions]);
        match self.check_status(kinds.as_slice()) {
            Ok(()) => {},
            Err(e) => {
                return Err(e);
            },
        }
        match self.check_player(player_id) {
            Ok(()) => {},
            Err(e) => {
                return Err(e);
            },
        }
        assert(player_id.0 < self@.n());
        let ghost g = self@;
        match &mut self.board {
            None => {
                return Err(GameError::GameIsStarting);
            },
            Some(board) => {
                match board.can_upgrade_settlement_to_city(vertex, player_id) {
                    Ok(()) => {},
                    Err(x) => {
                        return Err(GameError::Placement(x));
                    },
                }
                let ghost old_players = self.players@;
                match self.players[player_id.0].pay(&Cost::city()) {
                    Ok(()) => {},
                    Err(_) => {
                        assert(player_views(self.players@) =~= player_views(old_players));
                        return Err(GameError::NotEnoughResources);
                    },
                }
                let _ = board.upgrade_settlement_to_city(vertex, player_id);
                assert(player_views(self.players@) =~= g.with_hand(
                    player_id,
                    minus(g.hand(player_id), city_cost()),
                ).players);
            },
        }
        self.score_point(player_id);
        Ok(())
    }

    /// Moves the robber, after which the player goes on with their turn.
    pub fn move_robber(&mut self, player_id: PlayerId, tile: TileId) -> (r: Result<(), GameError>)
        requires
            old(self)@.wf(),
        ensures
            (final(self)@, r) == move_robber_spec(old(self)@, player_id, tile),
            final(self)@.wf(),
    {
        let kinds = [StatusKind::AwaitingNewRobberLocation];
        assert(kinds@ == seq![StatusKind::AwaitingNewRobberLocation]);
        match self.check_status(kinds.as_slice()) {
            Ok(()) => {},
            Err(e) => {
                return Err(e);
            },
        }
        match self.check_player(player_id) {
            Ok(()) => {},
            Err(e) => {
                return Err(e);
            },
        }
        proof {
            if let Some(b) = self@.board {
                crate::board::invariants::lemma_robber_keeps_roads_connected(b, tile);
            }
        }
        match &mut self.board {
            None => {
                return Err(GameError::GameIsStarting);
            },
            Some(board) => {
                match board.move_robber(tile) {
                    Ok(()) => {},
                    Err(x) => {
                        return Err(GameError::Placement(x));
                    },
                }
            },
        }
        self.set_status(GameStatus::PlayingActions);
        Ok(())
    }

    /// A player gives up the cards asked of them after a seven; once
    /// everybody has, the robber must move.
    pub fn discard(&mut self, player_id: PlayerId, resources: ResourceCounts) -> (r: Result<(), GameError>)
        requires
            old(self)@.wf(),
            total(resources@) <= u8::MAX,
        ensures
            (final(self)@, r) == discard_spec(old(self)@, player_id, resources@),
            final(self)@.wf(),
    {
        proof {
            lemma_discard_wf(self@, player_id, resources@);
        }
        let kinds = [StatusKind::AwaitingDiscard];
        assert(kinds@ == seq![StatusKind::AwaitingDiscard]);
        match self.check_status(kinds.as_slice()) {
            Ok(()) => {},
            Err(e) => {
                return Err(e);
            },
        }
        match self.is_player(player_id) {
            Ok(()) => {},
            Err(e) => {
                return Err(e);
            },
        }
        let ghost g = self@;
        match self.status {
            GameStatus::AwaitingDiscard { must_discard } => {
                let i = player_id.0;
                if must_discard[i] == 0 {
                    return Err(GameError::PlayerDontNeedToDiscard);
                }
                if must_discard[i] != resources.count() {
                    return Err(GameError::InvalidDiscardCount);
                }
                let ghost old_players = self.players@;
                match self.players[i].pay(&Cost::new(resources)) {
                    Ok(()) => {},
                    Err(_) => {
                        assert(player_views(self.players@) =~= player_views(old_players));
                        return Err(GameError::NotEnoughResources);
                    },
                }
                assert(player_views(self.players@) =~= g.with_hand(
                    player_id,
                    minus(g.hand(player_id), resources@),
                ).players);
                let mut left = must_discard;
                left[i] = 0;
                let mut k: usize = 0;
                let mut done = true;
                while k < 6
                    invariant
                        0 <= k <= 6,
                        done <==> forall|j: int| 0 <= j < k ==> left[j] == 0,
                    decreases 6 - k,
                {
                    if left[k] != 0 {
                        done = false;
                    }
                    k = k + 1;
                }
                proof {
                    assert(left == vstd::array::spec_array_update(must_discard, i as int, 0u8)) by {
                        assert(left =~= vstd::array::spec_array_update(must_discard, i as int, 0u8));
                    }
                }
                if done {
                    self.set_status(GameStatus::AwaitingNewRobberLocation);
                } else {
                    self.set_status(GameStatus::AwaitingDiscard { must_discard: left });
                }
                Ok(())
            },
            _ => Err(GameError::InvalidGameStatus),
        }
    }

    /// Decides the turn order from one roll per player: the highest roll
    /// plays first and the others follow in the list's order; a tie for the
    /// highest roll decides nothing.
    pub fn set_players_order(&mut self, rolls: Vec<Roll>) -> (r: Result<(), GameError>)
        requires
            old(self)@.wf(),
        ensures
            (final(self)@, r) == order_spec(old(self)@, rolls@.map_values(|x: Roll| x@)),
            final(self)@.wf(),
    {
        let ghost rv = rolls@.map_values(|x: Roll| x@);
        let kinds = [StatusKind::Starting];
        assert(kinds@ == seq![StatusKind::Starting]);
        match self.check_status(kinds.as_slice()) {
            Ok(()) => {},
            Err(e) => {
                return Err(e);
            },
        }
        let n = self.players.len();
        if rolls.len() != n {
            return Err(GameError::WrongRollCount);
        }
        let mut best: u8 = 0;
        let mut first: usize = 0;
        let mut i: usize = 0;
        while i < n
            invariant
                n == rolls@.len(),
                rv == rolls@.map_values(|x: Roll| x@),
                2 <= n,
                0 <= i <= n,
                first < n,
                i > 0 ==> first < i && best == roll_total(rv[first as int]),
                i == 0 ==> best == 0,
                forall|j: int| 0 <= j < i ==> roll_total(rv[j]) <= best,
                forall|j: int| 0 <= j < first ==> roll_total(rv[j]) < best,
            decreases n - i,
        {
            let v = rolls[i].value();
            assert(v == roll_total(rv[i as int]));
            if v > best {
                best = v;
                first = i;
            }
            i = i + 1;
        }
        let mut tied = false;
        let mut j: usize = 0;
        while j < n
            invariant
                n == rolls@.len(),
                rv == rolls@.map_values(|x: Roll| x@),
                0 <= j <= n,
                tied <==> exists|k: int| 0 <= k < j && k != first && roll_total(rv[k]) == best,
            decreases n - j,
        {
            let v = rolls[j].value();
            assert(v == roll_total(rv[j as int]));
            if j != first && v == best {
                tied = true;
            }
            proof {
                if !tied {
                    assert forall|k: int| 0 <= k < j + 1 && k != first implies roll_total(rv[k]) != best by {
                        if k < j {
                            if roll_total(rv[k]) == best {
                                assert(exists|k2: int|
                                    0 <= k2 < j && k2 != first && roll_total(rv[k2]) == best);
                            }
                        }
                    }
                }
            }
            j = j + 1;
        }
        proof {
            if tied {
                assert forall|f: int| !unique_best(rv, f) by {
                    let k = choose|k: int| 0 <= k < n && k != first && roll_total(rv[k]) == best;
                    if unique_best(rv, f) {
                        if f == first {
                            assert(roll_total(rv[k]) < roll_total(rv[f]));
                        } else {
                            assert(roll_total(rv[first as int]) < roll_total(rv[f]));
                        }
                    }
                }
            } else {
                assert(unique_best(rv, first as int));
                let f = choose|f: int| unique_best(rv, f);
                if f != first {
                    assert(roll_total(rv[first as int]) < roll_total(rv[f]));
                    assert(roll_total(rv[f]) < roll_total(rv[first as int]));
                }
            }
        }
        if tied {
            return Err(GameError::TiedRolls);
        }
        let mut order: Vec<PlayerId> = Vec::new();
        let mut k: usize = 0;
        while k < n
            invariant
                0 <= k <= n,
                first < n,
                n <= 6,
                order@ == rotation(first as int, n as int).take(k as int),
            decreases n - k,
        {
            order.push(PlayerId((first + k) % n));
            k = k + 1;
            assert(order@ =~= rotation(first as int, n as int).take(k as int));
        }
        assert(order@ =~= rotation(first as int, n as int));
        self.turn_order = order;
        proof {
            let g2 = self@;
            assert forall|a: int, b: int| 0 <= a < b < n implies g2.turn_order[a] != g2.turn_order[b] by {
                lemma_mod_small(first + a, n as int);
                lemma_mod_small(first + b, n as int);
            }
            assert forall|a: int| 0 <= a < n implies (#[trigger] g2.turn_order[a]).0 < n by {
                lemma_mod_small(first + a, n as int);
            }
        }
        Ok(())
    }

    /// Lays the board in the given arrangement of terrains; the first
    /// placement round begins.
    pub fn start(&mut self, shuffled: &[Terrain]) -> (r: Result<(), GameError>)
        requires
            old(self)@.wf(),
        ensures
            final(self)@.wf(),
            !(old(self)@.status is Starting) ==> r == Err::<(), GameError>(GameError::InvalidGameStatus),
            old(self)@.status is Starting && shuffled@.len() != old(self)@.scenario.terrains.len() ==> r
                == Err::<(), GameError>(
                GameError::BoardInitialization(
                    InvalidBoard::WrongTileCount {
                        expected: old(self)@.scenario.terrains.len() as usize,
                        got: shuffled@.len() as usize,
                    },
                ),
            ),
            old(self)@.status is Starting && shuffled@.len() == old(self)@.scenario.terrains.len()
                && !same_distribution(shuffled@, old(self)@.scenario.terrains) ==> r == Err::<
                (),
                GameError,
            >(GameError::BoardInitialization(InvalidBoard::WrongDistribution)),
            r is Ok <==> old(self)@.status is Starting && shuffled@.len()
                == old(self)@.scenario.terrains.len() && same_distribution(
                shuffled@,
                old(self)@.scenario.terrains,
            ),
            r is Err ==> final(self)@ == old(self)@,
            r is Ok ==> (final(self)@.board matches Some(b) && old(self)@.scenario.laid(shuffled@, b)
                && final(self)@ == (GameView {
                board: Some(b),
                status: GameStatus::FirstPlacementSettlement,
                ..old(self)@
            })),
    {
        let kinds = [StatusKind::Starting];
        assert(kinds@ == seq![StatusKind::Starting]);
        match self.check_status(kinds.as_slice()) {
            Ok(()) => {},
            Err(e) => {
                return Err(e);
            },
        }
        match self.scenario.layout(shuffled) {
            Err(e) => Err(GameError::BoardInitialization(e)),
            Ok(board) => {
                proof {
                    let bs = board@.buildings;
                    assert forall|i: int| 0 <= i < self@.n() implies #[trigger] points(
                        bs,
                        PlayerId(i as usize),
                        bs.len() as int,
                    ) == 0 by {
                        crate::board::invariants::lemma_points_none(bs, PlayerId(i as usize), bs.len() as int);
                    }
                }
                self.board = Some(board);
                self.set_status(GameStatus::FirstPlacementSettlement);
                Ok(())
            },
        }
    }

    /// Plays a roll: a seven calls for discards and the robber, any other
    /// number gives every player what their buildings around the tiles with
    /// that number produce.
    pub fn apply_roll(&mut self, roll: Roll) -> (r: Result<RollOutcome, GameError>)
        requires
            old(self)@.wf(),
            roll_fits(old(self)@, roll_total(roll@)),
        ensures
            final(self)@.wf(),
            !(old(self)@.status is AwaitingRoll) ==> r == Err::<RollOutcome, GameError>(
                GameError::InvalidGameStatus,
            ) && final(self)@ == old(self)@,
            old(self)@.status is AwaitingRoll && roll_total(roll@) == 7 ==> (r matches Ok(
                RollOutcome::RobberActivated { must_discard },
            ) && (forall|i: int| 0 <= i < 6 ==> must_discard[i] == discard_due(old(self)@, i))
                && final(self)@ == old(self)@.with_status(
                if all_zero(must_discard) {
                    GameStatus::AwaitingNewRobberLocation
                } else {
                    GameStatus::AwaitingDiscard { must_discard }
                },
            )),
            old(self)@.status is AwaitingRoll && roll_total(roll@) != 7 ==> (r matches Ok(
                RollOutcome::Production(production),
            ) && (old(self)@.board matches Some(b) && sorted_players(production@) && (forall|
                q: PlayerId,
            | gains_of(production@, q) == production_for(b, roll_total(roll@), q)) && (forall|
                q: PlayerId,
            | lists(production@, q) <==> exists|k: int|
                0 <= k < 5 && #[trigger] crate::board::produced(b, roll_total(roll@), q, k, b.tiles.len() as int) > 0)
                && final(self)@ == (GameView {
                players: rolled_players(old(self)@, b, roll_total(roll@)),
                status: GameStatus::PlayingActions,
                ..old(self)@
            }))),
            r is Ok ==> !(final(self)@.status is AwaitingRoll),
    {
        let kinds = [StatusKind::AwaitingRoll];
        assert(kinds@ == seq![StatusKind::AwaitingRoll]);
        match self.check_status(kinds.as_slice()) {
            Ok(()) => {},
            Err(e) => {
                return Err(e);
            },
        }
        let ghost g = self@;
        let value = roll.value();
        if value == 7 {
            let mut must_discard: [u8; 6] = [0, 0, 0, 0, 0, 0];
            let mut i: usize = 0;
            while i < self.players.len()
                invariant
                    g.wf(),
                    self@ == g,
                    0 <= i <= g.n(),
                    forall|k: int| 0 <= k < i ==> must_discard[k] == discard_due(g, k),
                    forall|k: int| i <= k < 6 ==> must_discard[k] == 0,
                decreases g.n() - i,
            {
                proof {
                    assert(g.players[i as int] == self.players@[i as int]@);
                }
                let count = self.players[i].hand().count();
                if count > 7 {
                    must_discard[i] = count / 2;
                }
                i = i + 1;
            }
            proof {
                assert forall|k: int| g.n() <= k < 6 implies must_discard[k] == discard_due(g, k) by {}
            }
            let mut k: usize = 0;
            let mut none = true;
            while k < 6
                invariant
                    0 <= k <= 6,
                    none <==> forall|j: int| 0 <= j < k ==> must_discard[j] == 0,
                decreases 6 - k,
            {
                if must_discard[k] != 0 {
                    none = false;
                }
                k = k + 1;
            }
            if none {
                self.set_status(GameStatus::AwaitingNewRobberLocation);
            } else {
                self.set_status(GameStatus::AwaitingDiscard { must_discard });
            }
            return Ok(RollOutcome::RobberActivated { must_discard });
        }
        self.set_status(GameStatus::PlayingActions);
        let production = match &self.board {
            Some(board) => board.production(roll),
            None => {
                return Err(GameError::GameIsStarting);
            },
        };
        let ghost b = g.board->0;
        let ghost rv = roll_total(roll@);
        let gains = production.gains();
        proof {
            assert forall|j: int| 0 <= j < gains@.len() implies (#[trigger] gains@[j]).player.0 < g.n() by {
                assert(lists(production@, gains@[j].player));
                let k = choose|k: int|
                    0 <= k < 5 && #[trigger] crate::board::produced(
                        b,
                        rv,
                        gains@[j].player,
                        k,
                        b.tiles.len() as int,
                    ) > 0;
                crate::board::lemma_produced_owner(b, rv, gains@[j].player, k, b.tiles.len() as int);
            }
            assert forall|q: int| 0 <= q < g.n() implies self@.players[q] == (PlayerView {
                hand: plus(g.players[q].hand, gains_of(gains@.take(0), PlayerId(q as usize))),
                ..g.players[q]
            }) by {
                assert(plus(g.players[q].hand, gains_of(gains@.take(0), PlayerId(q as usize))) =~= g.players[q].hand);
            }
        }
        let mut j: usize = 0;
        while j < gains.len()
            invariant
                g.wf(),
                roll_fits(g, rv),
                g.board == Some(b),
                rv != 7,
                0 <= j <= gains@.len(),
                gains@ == production@,
                crate::board::production::distinct_players(gains@),
                forall|q: PlayerId| gains_of(gains@, q) == production_for(b, rv, q),
                forall|k: int| 0 <= k < gains@.len() ==> (#[trigger] gains@[k]).player.0 < g.n(),
                self@ == (GameView { players: self@.players, status: GameStatus::PlayingActions, ..g }),
                self@.players.len() == g.n(),
                forall|q: int|
                    0 <= q < g.n() ==> #[trigger] self@.players[q] == (PlayerView {
                        hand: plus(g.players[q].hand, gains_of(gains@.take(j as int), PlayerId(q as usize))),
                        ..g.players[q]
                    }),
            decreases gains@.len() - j,
        {
            let gain = gains[j];
            let pi = gain.player.0;
            let ghost before = self.players@;
            let ghost before_view = self@;
            proof {
                let next = gains@.take(j + 1);
                assert(next =~= gains@.take(j as int).push(gain));
                assert(crate::board::production::distinct_players(next)) by {
                    assert forall|a: int, c: int| 0 <= a < c < next.len() implies next[a].player != next[c].player by {
                        assert(next[a] == gains@[a] && next[c] == gains@[c]);
                    }
                }
                lemma_gains_of_push(gains@.take(j as int), gain);
                crate::board::production::lemma_slot(next, gain.player, j as int);
                assert(gain.player == PlayerId(pi));
                assert(before[pi as int]@ == self@.players[pi as int]);
                assert(gains_of(gains@.take(j as int), gain.player) =~= crate::board::production::zero_counts()) by {
                    if crate::board::production::lists(gains@.take(j as int), gain.player) {
                        let m = choose|m: int| 0 <= m < j && gains@.take(j as int)[m].player == gain.player;
                        assert(gains@[m].player != gains@[j as int].player);
                    }
                }
                assert(plus(g.players[pi as int].hand, crate::board::production::zero_counts()) =~= g.players[pi as int].hand);
                crate::board::production::lemma_slot(gains@, gain.player, j as int);
                let pr = production_for(b, rv, PlayerId(pi));
                assert(gain.resources@ == pr);
                assert(sum_fits(g.players[pi as int].hand, pr));
            }
            self.players[pi].receive(gain.resources);
            proof {
                assert forall|q: int| 0 <= q < g.n() implies #[trigger] self@.players[q] == (PlayerView {
                    hand: plus(g.players[q].hand, gains_of(gains@.take(j + 1), PlayerId(q as usize))),
                    ..g.players[q]
                }) by {
                    assert(before_view.players[q] == before[q]@);
                    if q != pi {
                        assert(self.players@[q] == before[q]);
                        assert(PlayerId(q as usize) != gain.player);
                    } else {
                        assert(PlayerId(q as usize) == gain.player);
                        assert(gains@.take(j + 1)[j as int] == gain);
                    }
                }
            }
            j = j + 1;
        }
        proof {
            assert(gains@.take(gains@.len() as int) =~= gains@);
            assert(self@.players =~= rolled_players(g, b, rv));
            lemma_rolled_wf(g, b, rv);
        }
        Ok(RollOutcome::Production(production))
    }

    /// Builds a road: in the opening rounds from the settlement just built,
    /// for free, which ends the placement turn; in play, paid with wood and
    /// brick. A refused road changes nothing.
    pub fn build_road(&mut self, player_id: PlayerId, edge: EdgeId) -> (r: Result<(), GameError>)
        requires
            old(self)@.wf(),
        ensures
            (final(self)@, r) == build_road_spec(old(self)@, player_id, edge),
            final(self)@.wf(),
    {
        proof {
            lemma_build_road_wf(self@, player_id, edge);
        }
        let kinds = [StatusKind::FirstPlacementRoad, StatusKind::SecondPlacementRoad, StatusKind::PlayingActions];
        assert(kinds@ == seq![StatusKind::FirstPlacementRoad, StatusKind::SecondPlacementRoad, StatusKind::PlayingActions]);
        match self.check_status(kinds.as_slice()) {
            Ok(()) => {},
            Err(e) => {
                return Err(e);
            },
        }
        match self.check_player(player_id) {
            Ok(()) => {},
            Err(e) => {
                return Err(e);
            },
        }
        assert(player_id.0 < self@.n());
        let status = self.status;
        let ghost g = self@;
        match &mut self.board {
            None => Err(GameError::GameIsStarting),
            Some(board) => {
                match status {
                    GameStatus::PlayingActions => {
                        match board.can_place_road(status, edge, player_id) {
                            Ok(()) => {},
                            Err(x) => {
                                return Err(GameError::Placement(x));
                            },
                        }
                        let ghost old_players = self.players@;
                        match self.players[player_id.0].pay(&Cost::road()) {
                            Ok(()) => {},
                            Err(_) => {
                                assert(player_views(self.players@) =~= player_views(old_players));
                                return Err(GameError::NotEnoughResources);
                            },
                        }
                        let _ = board.place_road(status, edge, player_id);
                        assert(player_views(self.players@) =~= g.with_hand(
                            player_id,
                            minus(g.hand(player_id), road_cost()),
                        ).players);
                        Ok(())
                    },
                    _ => {
                        match board.place_road(status, edge, player_id) {
                            Ok(()) => {},
                            Err(x) => {
                                return Err(GameError::Placement(x));
                            },
                        }
                        self.end_placement_turn();
                        Ok(())
                    },
                }
            },
        }
    }
}


/// Taking a paid cost from a hand keeps it a hand of five bounded counts.
proof fn lemma_minus_total(h: Seq<u8>, c: Seq<u8>)
    requires
        h.len() == 5,
        c.len() == 5,
        covers_all(h, c),
    ensures
        minus(h, c).len() == 5,
        total(minus(h, c)) == total(h) - total(c),
        total(minus(h, c)) <= total(h),
{
}

proof fn lemma_with_hand_wf(g: GameView, p: PlayerId, h: Seq<u8>)
    requires
        g.well_laid(),
        p.0 < g.n(),
        h.len() == 5,
        total(h) <= u8::MAX,
    ensures
        g.with_hand(p, h).well_laid(),
        g.scores_counted() ==> g.with_hand(p, h).scores_counted(),
        forall|q: PlayerId| g.one_point_short(q) ==> #[trigger] g.with_hand(p, h).one_point_short(q),
{
    let g2 = g.with_hand(p, h);
    assert forall|i: int| 0 <= i < g2.n() implies (#[trigger] g2.players[i]).hand.len() == 5 && total(
        g2.players[i].hand,
    ) <= u8::MAX && g2.players[i].score <= VICTORY_POINTS by {
        assert(g.players[i] == g.players[i]);
    }
    if !(g2.status is End) {
        assert forall|i: int| 0 <= i < g2.n() implies (#[trigger] g2.players[i]).score < VICTORY_POINTS by {
            assert(g.players[i].score < VICTORY_POINTS);
        }
    }
    assert forall|i: int| 0 <= i < g2.n() implies (#[trigger] g2.players[i]).score == g.players[i].score by {}
    if g.scores_counted() {
        assert forall|i: int| 0 <= i < g2.n() implies (#[trigger] g2.players[i]).score == g.players[i].score by {}
    }
    assert forall|q: PlayerId| g.one_point_short(q) implies #[trigger] g2.one_point_short(q) by {
        assert forall|i: int| 0 <= i < g2.n() implies (#[trigger] g2.players[i]).score == g.players[i].score by {}
    }
}

proof fn lemma_build_road_wf(g: GameView, p: PlayerId, e: EdgeId)
    requires
        g.wf(),
    ensures
        build_road_spec(g, p, e).0.wf(),
{
    let s = g.status;
    if (s is FirstPlacementRoad || s is SecondPlacementRoad || s is PlayingActions) && p == g.current() {
        assert(p.0 < g.n());
        if let Some(b) = g.board {
            if road_check(b, s, e, p) is Ok {
                let b2 = BoardView { roads: b.roads.update(e.0 as int, Some(p)), ..b };
                assert(b2.wf());
                assert(owners_valid(b2, g.n()));
                crate::board::invariants::law_road_keeps_roads_connected(b, s, e, p);
                assert(b2 == crate::board::invariants::with_road(b, e, p));
                if s is PlayingActions {
                    if covers_all(g.hand(p), road_cost()) {
                        lemma_minus_total(g.hand(p), road_cost());
                        lemma_with_hand_wf(g, p, minus(g.hand(p), road_cost()));
                    }
                }
            }
        }
    }
}

/// What a vertex's tiles produce depends on the tiles and the topology only.
proof fn lemma_around_same(b1: BoardView, b2: BoardView, v: VertexId, n: int)
    requires
        b1.tiles == b2.tiles,
        b1.topology == b2.topology,
    ensures
        around(b1, v, n) == around(b2, v, n),
    decreases n,
{
    if n > 0 {
        lemma_around_same(b1, b2, v, n - 1);
    }
}

/// A hand credited with `rs` holds `rs.len()` more cards and no count overflows.
proof fn lemma_credited(h: Seq<u8>, rs: Seq<Resource>)
    requires
        h.len() == 5,
        total(h) + rs.len() <= u8::MAX,
    ensures
        credited(h, rs).len() == 5,
        total(credited(h, rs)) == total(h) + rs.len(),
    decreases rs.len(),
{
    if rs.len() > 0 {
        lemma_credited(h, rs.drop_last());
        let c = credited(h, rs.drop_last());
        let k = resource_slot(rs.last());
        assert(sum_fits(c, one_card(k)));
    }
}

proof fn lemma_scored_wf(g: GameView, p: PlayerId)
    requires
        g.well_laid(),
        g.one_point_short(p),
        p.0 < g.n(),
        !(g.status is End),
    ensures
        g.scored(p, 1).wf(),
{
    let g2 = g.scored(p, 1);
    let b = g.board->0;
    assert forall|i: int| 0 <= i < g2.n() implies (#[trigger] g2.players[i]).score == points(
        b.buildings,
        PlayerId(i as usize),
        b.buildings.len() as int,
    ) by {
        assert(g.players[i] == g.players[i]);
        if i == p.0 {
            assert(PlayerId(i as usize) == p);
        }
    }
    assert(g.players[p.0 as int].score < VICTORY_POINTS);
    assert forall|i: int| 0 <= i < g2.n() implies (#[trigger] g2.players[i]).hand.len() == 5 && total(
        g2.players[i].hand,
    ) <= u8::MAX && g2.players[i].score <= VICTORY_POINTS by {
        assert(g.players[i] == g.players[i]);
    }
    if !(g2.status is End) {
        assert forall|i: int| 0 <= i < g2.n() implies (#[trigger] g2.players[i]).score < VICTORY_POINTS by {
            assert(g.players[i].score < VICTORY_POINTS);
        }
    }
}

/// A new building of `p`, or a settlement of `p` turned into a city, is
/// worth one more point to `p` and nothing to anybody else.
proof fn lemma_building_point(g: GameView, b: BoardView, v: VertexId, bld: Building)
    requires
        g.wf(),
        g.board == Some(b),
        v.0 < b.buildings.len(),
        bld.owner.0 < g.n(),
        building_points(b.buildings[v.0 as int], bld.owner) + 1 == building_points(Some(bld), bld.owner),
        b.buildings[v.0 as int] matches Some(old_bld) ==> old_bld.owner == bld.owner,
    ensures
        g.with_board(BoardView { buildings: b.buildings.update(v.0 as int, Some(bld)), ..b }).one_point_short(
            bld.owner,
        ),
{
    let b2 = BoardView { buildings: b.buildings.update(v.0 as int, Some(bld)), ..b };
    let g2 = g.with_board(b2);
    let n = b.buildings.len() as int;
    assert forall|i: int| 0 <= i < g2.n() implies (#[trigger] g2.players[i]).score + (if i == bld.owner.0 {
        1int
    } else {
        0int
    }) == points(b2.buildings, PlayerId(i as usize), n) by {
        crate::board::invariants::lemma_points_update(b.buildings, v.0 as int, Some(bld), PlayerId(i as usize), n);
        if i == bld.owner.0 {
            assert(PlayerId(i as usize) == bld.owner);
        }
    }
}

proof fn lemma_build_settlement_wf(g: GameView, p: PlayerId, v: VertexId)
    requires
        g.wf(),
        credit_fits(g, v),
    ensures
        build_settlement_spec(g, p, v).0.wf(),
{
    let s = g.status;
    if (s is FirstPlacementSettlement || s is SecondPlacementSettlement || s is PlayingActions) && p
        == g.current() {
        assert(p.0 < g.n());
        if let Some(b) = g.board {
            if building_check(b, s, v, p) is Ok {
                let b2 = BoardView {
                    buildings: b.buildings.update(
                        v.0 as int,
                        Some(Building { kind: BuildingKind::Settlement, owner: p }),
                    ),
                    ..b
                };
                assert(b2.wf());
                assert(owners_valid(b2, g.n()));
                crate::board::invariants::law_settlement_keeps_spacing(b, s, v, p);
                crate::board::invariants::lemma_building_keeps_roads_connected(
                    b,
                    v,
                    Building { kind: BuildingKind::Settlement, owner: p },
                );
                assert(b2 == crate::board::invariants::with_settlement(b, v, p));
                let gb = g.with_board(b2);
                assert(gb.well_laid());
                lemma_building_point(g, b, v, Building { kind: BuildingKind::Settlement, owner: p });
                assert(gb.one_point_short(p));
                if s is FirstPlacementSettlement {
                    lemma_scored_wf(gb.with_status(GameStatus::FirstPlacementRoad), p);
                } else if s is SecondPlacementSettlement {
                    let rs = around(b, v, b.tiles.len() as int);
                    lemma_credited(g.hand(p), rs);
                    lemma_with_hand_wf(gb, p, credited(g.hand(p), rs));
                    lemma_scored_wf(
                        gb.with_hand(p, credited(g.hand(p), rs)).with_status(GameStatus::SecondPlacementRoad),
                        p,
                    );
                } else if covers_all(g.hand(p), settlement_cost()) {
                    lemma_minus_total(g.hand(p), settlement_cost());
                    lemma_with_hand_wf(gb, p, minus(g.hand(p), settlement_cost()));
                    assert(g.with_hand(p, minus(g.hand(p), settlement_cost())).with_board(b2) == gb.with_hand(
                        p,
                        minus(g.hand(p), settlement_cost()),
                    ));
                    lemma_scored_wf(gb.with_hand(p, minus(g.hand(p), settlement_cost())), p);
                }
            }
        }
    }
}

proof fn lemma_upgrade_wf(g: GameView, p: PlayerId, v: VertexId)
    requires
        g.wf(),
    ensures
        upgrade_spec(g, p, v).0.wf(),
{
    if g.status is PlayingActions && p == g.current() {
        assert(p.0 < g.n());
        if let Some(b) = g.board {
            if upgrade_check(b, v, p) is Ok && covers_all(g.hand(p), city_cost()) {
                let b2 = BoardView {
                    buildings: b.buildings.update(
                        v.0 as int,
                        Some(Building { kind: BuildingKind::City, owner: p }),
                    ),
                    ..b
                };
                assert(b2.wf());
                assert(owners_valid(b2, g.n()));
                crate::board::invariants::lemma_upgrade_keeps_spacing(b, v, Building { kind: BuildingKind::City, owner: p });
                crate::board::invariants::lemma_building_keeps_roads_connected(b, v, Building { kind: BuildingKind::City, owner: p });
                lemma_minus_total(g.hand(p), city_cost());
                let gb = g.with_board(b2);
                assert(gb.well_laid());
                lemma_building_point(g, b, v, Building { kind: BuildingKind::City, owner: p });
                assert(gb.one_point_short(p));
                lemma_with_hand_wf(gb, p, minus(g.hand(p), city_cost()));
                assert(g.with_hand(p, minus(g.hand(p), city_cost())).with_board(b2) == gb.with_hand(
                    p,
                    minus(g.hand(p), city_cost()),
                ));
                lemma_scored_wf(gb.with_hand(p, minus(g.hand(p), city_cost())), p);
            }
        }
    }
}

proof fn lemma_discard_wf(g: GameView, p: PlayerId, res: Seq<u8>)
    requires
        g.wf(),
        res.len() == 5,
    ensures
        discard_spec(g, p, res).0.wf(),
{
    if let GameStatus::AwaitingDiscard { must_discard } = g.status {
        if p.0 < g.n() && covers_all(g.hand(p), res) {
            lemma_minus_total(g.hand(p), res);
            lemma_with_hand_wf(g, p, minus(g.hand(p), res));
            let md = vstd::array::spec_array_update(must_discard, p.0 as int, 0u8);
            assert(md@ == must_discard@.update(p.0 as int, 0u8));
            assert forall|i: int| g.n() <= i < 6 implies md[i] == 0 by {
                assert(md@[i] == md[i]);
            }
        }
    }
}

proof fn lemma_mod_small(x: int, n: int)
    requires
        0 < n,
        0 <= x < 2 * n,
    ensures
        x % n == (if x < n {
            x
        } else {
            x - n
        }),
{
    if x < n {
        vstd::arithmetic::div_mod::lemma_fundamental_div_mod_converse(x, n, 0, x);
    } else {
        vstd::arithmetic::div_mod::lemma_fundamental_div_mod_converse(x, n, 1, x - n);
    }
}

/// Appending an entry for a new player leaves every other entry's counts.
proof fn lemma_gains_of_push(gs: Seq<crate::board::Gain>, g: crate::board::Gain)
    requires
        crate::board::production::distinct_players(gs.push(g)),
    ensures
        forall|q: PlayerId| q != g.player ==> gains_of(gs.push(g), q) == gains_of(gs, q),
{
    let gs2 = gs.push(g);
    assert forall|q: PlayerId| q != g.player implies gains_of(gs2, q) == gains_of(gs, q) by {
        if lists(gs, q) {
            let k = choose|k: int| 0 <= k < gs.len() && gs[k].player == q;
            assert(gs2[k] == gs[k]);
            assert(crate::board::production::distinct_players(gs)) by {
                assert forall|a: int, c: int| 0 <= a < c < gs.len() implies gs[a].player != gs[c].player by {
                    assert(gs2[a] == gs[a] && gs2[c] == gs[c]);
                }
            }
            crate::board::production::lemma_slot(gs, q, k);
            crate::board::production::lemma_slot(gs2, q, k);
        } else if lists(gs2, q) {
            let k = choose|k: int| 0 <= k < gs2.len() && gs2[k].player == q;
            assert(gs[k] == gs2[k]);
        }
    }
}

proof fn lemma_rolled_wf(g: GameView, b: BoardView, roll: int)
    requires
        g.wf(),
        g.board == Some(b),
        roll_fits(g, roll),
        roll != 7,
        !(g.status is End),
    ensures
        (GameView { players: rolled_players(g, b, roll), status: GameStatus::PlayingActions, ..g }).wf(),
{
    let g2 = GameView { players: rolled_players(g, b, roll), status: GameStatus::PlayingActions, ..g };
    assert forall|i: int| 0 <= i < g2.n() implies (#[trigger] g2.players[i]).hand.len() == 5 && total(
        g2.players[i].hand,
    ) <= u8::MAX && g2.players[i].score <= VICTORY_POINTS by {
        assert(g.players[i] == g.players[i]);
        let pr = production_for(b, roll, PlayerId(i as usize));
        assert(sum_fits(g.players[i].hand, pr));
        assert(total(g.players[i].hand) + total(pr) <= u8::MAX);
    }
    assert forall|i: int| 0 <= i < g2.n() implies (#[trigger] g2.players[i]).score < VICTORY_POINTS by {
        assert(g.players[i].score < VICTORY_POINTS);
    }
}

} // verus!
