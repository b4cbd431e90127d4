//! What holds of the game across its actions.
use vstd::prelude::*;

use crate::board::invariants::points;
use crate::board::{building_check, settlement_placement, BoardView};
use crate::geometry::topology::touches;
use crate::resource::counts::total;
use crate::resource::{resource_slot, Resource};
use crate::game::{
    build_road_spec, build_settlement_spec, discard_spec, move_robber_spec, next_player_spec,
    discard_due, order_spec, rotation, upgrade_spec, GameError, GameStatus, GameView,
};
use crate::geometry::{EdgeId, TileId, VertexId};
use crate::player::PlayerId;

verus! {

/// A refused action never changes the game: whichever action is refused,
/// the game stays as it was.
pub proof fn law_refusal_changes_nothing(
    g: GameView,
    p: PlayerId,
    v: VertexId,
    e: EdgeId,
    t: TileId,
    res: Seq<u8>,
    rolls: Seq<(u8, u8)>,
)
    ensures
        build_road_spec(g, p, e).1 is Err ==> build_road_spec(g, p, e).0 == g,
        build_settlement_spec(g, p, v).1 is Err ==> build_settlement_spec(g, p, v).0 == g,
        upgrade_spec(g, p, v).1 is Err ==> upgrade_spec(g, p, v).0 == g,
        move_robber_spec(g, p, t).1 is Err ==> move_robber_spec(g, p, t).0 == g,
        discard_spec(g, p, res).1 is Err ==> discard_spec(g, p, res).0 == g,
        next_player_spec(g).1 is Err ==> next_player_spec(g).0 == g,
        order_spec(g, rolls).1 is Err ==> order_spec(g, rolls).0 == g,
{
}

/// Once the game is over, every action is refused.
pub proof fn law_game_over_refuses_everything(
    g: GameView,
    p: PlayerId,
    v: VertexId,
    e: EdgeId,
    t: TileId,
    res: Seq<u8>,
    rolls: Seq<(u8, u8)>,
)
    requires
        g.status is End,
    ensures
        build_road_spec(g, p, e).1 == Err::<(), GameError>(GameError::InvalidGameStatus),
        build_settlement_spec(g, p, v).1 == Err::<(), GameError>(GameError::InvalidGameStatus),
        upgrade_spec(g, p, v).1 == Err::<(), GameError>(GameError::InvalidGameStatus),
        move_robber_spec(g, p, t).1 == Err::<(), GameError>(GameError::InvalidGameStatus),
        discard_spec(g, p, res).1 == Err::<(), GameError>(GameError::InvalidGameStatus),
        next_player_spec(g).1 == Err::<(), GameError>(GameError::InvalidGameStatus),
        order_spec(g, rolls).1 == Err::<(), GameError>(GameError::InvalidGameStatus),
{
}

/// Nothing can be built, and the turn cannot end, before the dice are rolled.
pub proof fn law_no_building_before_roll(g: GameView, p: PlayerId, v: VertexId, e: EdgeId)
    requires
        g.status is AwaitingRoll,
    ensures
        build_road_spec(g, p, e).1 == Err::<(), GameError>(GameError::InvalidGameStatus),
        build_settlement_spec(g, p, v).1 == Err::<(), GameError>(GameError::InvalidGameStatus),
        upgrade_spec(g, p, v).1 == Err::<(), GameError>(GameError::InvalidGameStatus),
        next_player_spec(g).1 == Err::<(), GameError>(GameError::InvalidGameStatus),
{
}

/// In the opening rounds a player lays one settlement, then must lay its
/// road: a second settlement in a row is refused, whoever asks.
pub proof fn law_one_settlement_per_placement_turn(
    g: GameView,
    p: PlayerId,
    v: VertexId,
    q: PlayerId,
    w: VertexId,
)
    requires
        settlement_placement(g.status),
        build_settlement_spec(g, p, v).1 is Ok,
    ensures
        build_settlement_spec(build_settlement_spec(g, p, v).0, q, w).1 == Err::<(), GameError>(
            GameError::InvalidGameStatus,
        ),
{
}

/// In the opening rounds a player lays one road after its settlement: a
/// second road in a row is refused, whoever asks.
pub proof fn law_one_road_per_placement_turn(
    g: GameView,
    p: PlayerId,
    e: EdgeId,
    q: PlayerId,
    f: EdgeId,
)
    requires
        g.status is FirstPlacementRoad || g.status is SecondPlacementRoad,
        build_road_spec(g, p, e).1 is Ok,
    ensures
        build_road_spec(build_road_spec(g, p, e).0, q, f).1 == Err::<(), GameError>(
            GameError::InvalidGameStatus,
        ),
{
}

/// Player `q` has a place in the turn order `r`.
pub open spec fn has_place(r: Seq<PlayerId>, q: int) -> bool {
    exists|i: int| 0 <= i < r.len() && #[trigger] r[i] == PlayerId(q as usize)
}

/// The turn order that the rolls decide gives every player exactly one place.
pub proof fn law_turn_order_is_a_permutation(first: int, n: int)
    requires
        0 <= first < n,
        n <= usize::MAX,
    ensures
        rotation(first, n).len() == n,
        forall|i: int| 0 <= i < n ==> (#[trigger] rotation(first, n)[i]).0 < n,
        forall|i: int, j: int|
            0 <= i < j < n ==> rotation(first, n)[i] != rotation(first, n)[j],
        forall|q: int| 0 <= q < n ==> #[trigger] has_place(rotation(first, n), q),
{
    let r = rotation(first, n);
    assert forall|i: int| 0 <= i < n implies (#[trigger] r[i]).0 < n by {
        assert(0 <= (first + i) % n < n) by (nonlinear_arith)
            requires
                0 <= first + i,
                n > 0,
        ;
    }
    assert forall|i: int, j: int| 0 <= i < j < n implies r[i] != r[j] by {
        lemma_rotation_distinct(first, n, i, j);
    }
    assert forall|q: int| 0 <= q < n implies #[trigger] has_place(r, q) by {
        let i = if q >= first { q - first } else { q - first + n };
        assert(0 <= i < n);
        assert((first + i) % n == q) by (nonlinear_arith)
            requires
                first + i == q || first + i == q + n,
                0 <= q < n,
        ;
        assert(r[i] == PlayerId(q as usize));
    }
}

proof fn lemma_rotation_distinct(first: int, n: int, i: int, j: int)
    requires
        0 <= first < n,
        0 <= i < j < n,
        n <= usize::MAX,
    ensures
        rotation(first, n)[i] != rotation(first, n)[j],
{
    let a = (first + i) % n;
    let b = (first + j) % n;
    assert(a != b) by (nonlinear_arith)
        requires
            0 <= first < n,
            0 <= i < j < n,
            a == (first + i) % n,
            b == (first + j) % n,
    ;
    assert(0 <= a < n && 0 <= b < n) by (nonlinear_arith)
        requires
            0 <= first < n,
            0 <= i < j < n,
            a == (first + i) % n,
            b == (first + j) % n,
    ;
    assert(rotation(first, n)[i].0 == a);
    assert(rotation(first, n)[j].0 == b);
}

/// The status and the turn after the current player of the opening rounds
/// has laid a settlement and its road, with `n` players.
pub open spec fn opening_step(s: GameStatus, turn: nat, n: nat) -> (GameStatus, nat) {
    match s {
        GameStatus::FirstPlacementSettlement => if turn + 1 == n {
            (GameStatus::SecondPlacementSettlement, turn)
        } else {
            (GameStatus::FirstPlacementSettlement, turn + 1)
        },
        GameStatus::SecondPlacementSettlement => if turn == 0 {
            (GameStatus::AwaitingRoll, 0)
        } else {
            (GameStatus::SecondPlacementSettlement, (turn - 1) as nat)
        },
        _ => (s, turn),
    }
}

/// The status and the turn once `k` settlements and roads have been laid
/// since the start of the opening rounds.
pub open spec fn opening_after(n: nat, k: nat) -> (GameStatus, nat)
    decreases k,
{
    if k == 0 {
        (GameStatus::FirstPlacementSettlement, 0)
    } else {
        let (s, turn) = opening_after(n, (k - 1) as nat);
        opening_step(s, turn, n)
    }
}

/// A settlement and its road laid in the opening rounds pass the turn as
/// `opening_step` says.
pub proof fn law_opening_step(g: GameView, p: PlayerId, v: VertexId, q: PlayerId, e: EdgeId)
    requires
        g.wf(),
        settlement_placement(g.status),
        build_settlement_spec(g, p, v).1 is Ok,
        build_road_spec(build_settlement_spec(g, p, v).0, q, e).1 is Ok,
    ensures
        ({
            let g2 = build_road_spec(build_settlement_spec(g, p, v).0, q, e).0;
            (g2.status, g2.current_turn) == opening_step(g.status, g.current_turn, g.n())
        }),
{
}

/// The opening rounds go round the table and back: the `k`-th settlement
/// and road are laid by turn `k` in the first round and by turn `2n - 1 - k`
/// in the second, and after the last one the first player rolls.
pub proof fn law_opening_is_a_snake(n: nat, k: nat)
    requires
        2 <= n,
        k <= 2 * n,
    ensures
        opening_after(n, k) == (if k < n {
            (GameStatus::FirstPlacementSettlement, k)
        } else if k < 2 * n {
            (GameStatus::SecondPlacementSettlement, (2 * n - 1 - k) as nat)
        } else {
            (GameStatus::AwaitingRoll, 0nat)
        }),
    decreases k,
{
    if k > 0 {
        law_opening_is_a_snake(n, (k - 1) as nat);
    }
}

/// In every state that the actions keep, a player's score is what their
/// buildings are worth: one point per settlement, two per city.
pub proof fn law_scores_count_buildings(g: GameView, i: int)
    requires
        g.wf(),
        g.board is Some,
        0 <= i < g.n(),
    ensures
        g.players[i].score == points(g.board->0.buildings, PlayerId(i as usize), g.board->0.buildings.len() as int),
{
}

/// In play a settlement costs one wood, one brick, one wheat and one wool:
/// a settlement that the board accepts is refused when the hand lacks wool,
/// and a built one takes exactly those four cards and no stone.
pub proof fn law_settlement_price(g: GameView, p: PlayerId, v: VertexId)
    requires
        g.wf(),
        g.status is PlayingActions,
    ensures
        ({
            let (g2, r) = build_settlement_spec(g, p, v);
            let h = g.hand(p);
            r is Ok ==> {
                &&& h[resource_slot(Resource::Wood)] >= 1
                &&& h[resource_slot(Resource::Brick)] >= 1
                &&& h[resource_slot(Resource::Wheat)] >= 1
                &&& h[resource_slot(Resource::Wool)] >= 1
                &&& g2.hand(p).len() == 5
                &&& g2.hand(p)[resource_slot(Resource::Wood)] == h[resource_slot(Resource::Wood)] - 1
                &&& g2.hand(p)[resource_slot(Resource::Brick)] == h[resource_slot(Resource::Brick)] - 1
                &&& g2.hand(p)[resource_slot(Resource::Wheat)] == h[resource_slot(Resource::Wheat)] - 1
                &&& g2.hand(p)[resource_slot(Resource::Wool)] == h[resource_slot(Resource::Wool)] - 1
                &&& g2.hand(p)[resource_slot(Resource::Stone)] == h[resource_slot(Resource::Stone)]
            }
        }),
        ({
            let h = g.hand(p);
            (p == g.current() && g.board is Some && building_check(g.board->0, g.status, v, p) is Ok
                && h[resource_slot(Resource::Wool)] == 0) ==> build_settlement_spec(g, p, v)
                == (g, Err::<(), GameError>(GameError::NotEnoughResources))
        }),
{
}

/// Outside the opening rounds a settlement must touch one of its builder's
/// own roads: an accepted one does, and a vertex that no road of the builder
/// touches is refused, whoever else's roads reach it.
pub proof fn law_settlement_needs_own_road(b: BoardView, s: GameStatus, v: VertexId, p: PlayerId)
    requires
        !settlement_placement(s),
    ensures
        building_check(b, s, v, p) is Ok ==> exists|e: int|
            0 <= e < b.topology.edge_count && touches(b.topology, e, v) && #[trigger] b.roads[e] == Some(p),
        (forall|e: int|
            0 <= e < b.topology.edge_count && touches(b.topology, e, v) ==> #[trigger] b.roads[e] != Some(p))
            ==> building_check(b, s, v, p) is Err,
{
}

/// On a seven only a hand of more than seven cards is asked to discard, and
/// it is asked half of its cards, rounded down; a hand of seven or fewer is
/// asked nothing.
pub proof fn law_seven_asks_half_of_big_hands(g: GameView, i: int)
    requires
        0 <= i < g.n(),
    ensures
        total(g.players[i].hand) <= 7 ==> discard_due(g, i) == 0,
        total(g.players[i].hand) > 7 && total(g.players[i].hand) <= u8::MAX ==> 2 * discard_due(g, i)
            <= total(g.players[i].hand) < 2 * discard_due(g, i) + 2 && discard_due(g, i) > 0,
{
}

} // verus!
