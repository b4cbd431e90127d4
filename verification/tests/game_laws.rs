use catan::{
    Board, Building, EdgeId, Game, GameError, GameStatus, Player, PlayerColor, PlayerId,
    ResourceCounts, Roll, RollOutcome, Scenario, TileId, VertexId,
};

/// Deterministic dice for the long games below.
struct Dice(u32);

impl Dice {
    fn roll(&mut self) -> Roll {
        self.0 = self.0.wrapping_mul(1103515245).wrapping_add(12345);
        let a = ((self.0 >> 16) % 6) as u8 + 1;
        self.0 = self.0.wrapping_mul(1103515245).wrapping_add(12345);
        let b = ((self.0 >> 16) % 6) as u8 + 1;
        Roll::new(a, b).unwrap()
    }
}

fn snapshot(game: &Game) -> (GameStatus, PlayerId, Vec<ResourceCounts>, Vec<u8>, Option<(Vec<Option<Building>>, Vec<Option<PlayerId>>, TileId)>) {
    let hands = game.players().iter().map(|p| p.hand().resources()).collect();
    let scores = game.players().iter().map(|p| p.score()).collect();
    let board = game.board().ok().map(|b: &Board| (b.buildings().to_vec(), b.roads().to_vec(), b.robber()));
    (game.status(), game.current_player(), hands, scores, board)
}

fn standard_game(players: usize) -> Game {
    let colors = [PlayerColor::Red, PlayerColor::Blue, PlayerColor::White, PlayerColor::Orange];
    let mut game = Game::new(Scenario::standard(), (0..players).map(|i| Player::new(colors[i % 4])).collect()).unwrap();
    let mut rolls: Vec<Roll> = (0..players).map(|_| Roll::new(1, 1).unwrap()).collect();
    rolls[0] = Roll::new(6, 6).unwrap();
    game.set_players_order(rolls).unwrap();
    let terrains = game.scenario().terrains().to_vec();
    game.start(&terrains).unwrap();
    game
}

/// Lays the opening settlements and roads: each player takes the first
/// vertex the rules accept and the first road from it.
fn play_opening(game: &mut Game) {
    let vertices = game.board().unwrap().topology().vertex_count();
    let edges = game.board().unwrap().topology().edge_count();
    while matches!(game.status(), GameStatus::FirstPlacementSettlement | GameStatus::SecondPlacementSettlement) {
        let p = game.current_player();
        let board = game.board().unwrap();
        let mut spots: Vec<usize> = (0..vertices)
            .filter(|&v| board.can_place_building(game.status(), VertexId::new(v), p).is_ok())
            .collect();
        let variety = |v: usize| {
            let mut around = board.resources_around(VertexId::new(v));
            around.sort_by_key(|r| r.index());
            around.dedup();
            around.len()
        };
        spots.sort_by_key(|&v| std::cmp::Reverse(variety(v)));
        let placed = spots.into_iter().any(|v| game.build_settlement(p, VertexId::new(v)).is_ok());
        assert!(placed);
        let laid = (0..edges).any(|e| game.build_road(p, EdgeId::new(e)).is_ok());
        assert!(laid);
    }
    assert_eq!(game.status(), GameStatus::AwaitingRoll);
}

fn discard_half(game: &mut Game, must_discard: [u8; 6]) {
    for (i, &due) in must_discard.iter().enumerate() {
        if due == 0 {
            continue;
        }
        let mut hand = game.players()[i].hand().resources().0;
        let mut give = [0u8; 5];
        for _ in 0..due {
            let k = (0..5).max_by_key(|&k| hand[k]).unwrap();
            hand[k] -= 1;
            give[k] += 1;
        }
        assert_eq!(game.discard(PlayerId::new(i), ResourceCounts::new(give)), Ok(()));
    }
}

/// Plays one turn with a simple strategy; returns false once the game is over.
fn play_turn(game: &mut Game, dice: &mut Dice) -> bool {
    let vertices = game.board().unwrap().topology().vertex_count();
    let edges = game.board().unwrap().topology().edge_count();
    let tiles = game.board().unwrap().tiles().len();
    match game.apply_roll(dice.roll()).unwrap() {
        RollOutcome::RobberActivated { must_discard } => {
            discard_half(game, must_discard);
            assert_eq!(game.status(), GameStatus::AwaitingNewRobberLocation);
            let p = game.current_player();
            let moved = (0..tiles).any(|t| game.move_robber(p, TileId::new(t)).is_ok());
            assert!(moved);
        }
        RollOutcome::Production(_) => {}
    }
    assert_eq!(game.status(), GameStatus::PlayingActions);
    let p = game.current_player();
    for v in 0..vertices {
        let _ = game.upgrade_settlement_to_city(p, VertexId::new(v));
        if matches!(game.status(), GameStatus::End { .. }) {
            return false;
        }
    }
    for v in 0..vertices {
        let _ = game.build_settlement(p, VertexId::new(v));
        if matches!(game.status(), GameStatus::End { .. }) {
            return false;
        }
    }
    for e in 0..edges {
        if game.build_road(p, EdgeId::new(e)).is_ok() {
            break;
        }
    }
    assert_eq!(game.next_player(), Ok(()));
    true
}

/// Every road is joined to one of its owner's buildings by a line of its
/// owner's roads, each touching the one before.
fn connected(game: &Game) -> bool {
    let board = game.board().unwrap();
    let ends = board.topology().edges_endpoints();
    let roads = board.roads();
    let owns = |v: VertexId, p: PlayerId| board.buildings()[v.value()].map(|bld| bld.owner()) == Some(p);
    let mut reached: Vec<bool> = (0..roads.len())
        .map(|e| match roads[e] {
            Some(p) => owns(ends[e][0], p) || owns(ends[e][1], p),
            None => false,
        })
        .collect();
    loop {
        let mut grew = false;
        for f in 0..roads.len() {
            if reached[f] || roads[f].is_none() {
                continue;
            }
            let joined = (0..roads.len()).any(|e| {
                reached[e] && roads[e] == roads[f] && (ends[f].contains(&ends[e][0]) || ends[f].contains(&ends[e][1]))
            });
            if joined {
                reached[f] = true;
                grew = true;
            }
        }
        if !grew {
            break;
        }
    }
    (0..roads.len()).all(|e| roads[e].is_none() || reached[e])
}

/// Every score is one point per settlement and two per city.
fn scores_counted(game: &Game) -> bool {
    let board = game.board().unwrap();
    game.players().iter().enumerate().all(|(i, player)| {
        let worth: u32 = board
            .buildings()
            .iter()
            .flatten()
            .filter(|b| b.owner() == PlayerId::new(i))
            .map(|b| b.kind().amount() as u32)
            .sum();
        worth == player.score() as u32
    })
}

/// Every edge of the board has at most one built end.
fn spaced(game: &Game) -> bool {
    let board = game.board().unwrap();
    board.topology().edges_endpoints().iter().all(|[a, b]| {
        !(board.buildings()[a.value()].is_some() && board.buildings()[b.value()].is_some())
    })
}

#[test]
fn refused_actions_change_nothing() {
    let mut game = standard_game(3);
    let before = snapshot(&game);
    let p = game.current_player();
    let other = PlayerId::new((p.value() + 1) % 3);
    assert_eq!(game.build_road(p, EdgeId::new(0)), Err(GameError::InvalidGameStatus));
    assert_eq!(game.build_settlement(other, VertexId::new(0)), Err(GameError::NotYourTurn));
    assert!(game.build_settlement(p, VertexId::new(10_000)).is_err());
    assert_eq!(game.upgrade_settlement_to_city(p, VertexId::new(0)), Err(GameError::InvalidGameStatus));
    assert_eq!(game.move_robber(p, TileId::new(0)), Err(GameError::InvalidGameStatus));
    assert_eq!(game.discard(p, ResourceCounts::default()), Err(GameError::InvalidGameStatus));
    assert_eq!(game.next_player(), Err(GameError::TurnDrivenByPlacement));
    assert_eq!(game.set_players_order(vec![Roll::new(1, 1).unwrap(); 3]), Err(GameError::InvalidGameStatus));
    assert_eq!(game.start(&[]), Err(GameError::InvalidGameStatus));
    assert_eq!(game.apply_roll(Roll::new(3, 3).unwrap()), Err(GameError::InvalidGameStatus));
    assert_eq!(snapshot(&game), before);
}

#[test]
fn a_refused_payment_takes_nothing() {
    let mut game = standard_game(2);
    play_opening(&mut game);
    game.apply_roll(Roll::new(1, 1).unwrap()).unwrap();
    let p = game.current_player();
    let board = game.board().unwrap();
    let own = (0..board.buildings().len())
        .find(|&v| board.buildings()[v].map(|b| b.owner()) == Some(p))
        .unwrap();
    assert!(game.players()[p.value()].can_pay(&catan::Cost::city()).is_err());
    let before = snapshot(&game);
    assert_eq!(game.upgrade_settlement_to_city(p, VertexId::new(own)), Err(GameError::NotEnoughResources));
    assert_eq!(snapshot(&game), before);
}

#[test]
fn one_settlement_then_one_road_in_the_opening() {
    let mut game = standard_game(2);
    let p = game.current_player();
    assert_eq!(game.build_settlement(p, VertexId::new(0)), Ok(()));
    assert_eq!(game.status(), GameStatus::FirstPlacementRoad);
    assert_eq!(game.build_settlement(p, VertexId::new(20)), Err(GameError::InvalidGameStatus));
    let edges = game.board().unwrap().topology().edge_count();
    let e = (0..edges).find(|&e| game.build_road(p, EdgeId::new(e)).is_ok()).unwrap();
    assert!(game.board().unwrap().roads()[e].is_some());
    assert_eq!(game.status(), GameStatus::FirstPlacementSettlement);
    assert_ne!(game.current_player(), p);
    assert_eq!(game.build_road(game.current_player(), EdgeId::new(40)), Err(GameError::InvalidGameStatus));
}

#[test]
fn no_building_before_the_roll() {
    let mut game = standard_game(2);
    play_opening(&mut game);
    let p = game.current_player();
    let before = snapshot(&game);
    assert_eq!(game.build_road(p, EdgeId::new(0)), Err(GameError::InvalidGameStatus));
    assert_eq!(game.build_settlement(p, VertexId::new(0)), Err(GameError::InvalidGameStatus));
    assert_eq!(game.upgrade_settlement_to_city(p, VertexId::new(0)), Err(GameError::InvalidGameStatus));
    assert_eq!(game.next_player(), Err(GameError::InvalidGameStatus));
    assert_eq!(snapshot(&game), before);
}

#[test]
fn the_dice_are_rolled_once_per_turn() {
    let mut game = standard_game(2);
    play_opening(&mut game);
    assert!(game.apply_roll(Roll::new(2, 3).unwrap()).is_ok());
    assert_eq!(game.apply_roll(Roll::new(2, 3).unwrap()), Err(GameError::InvalidGameStatus));
}

#[test]
fn turn_order_gives_every_player_one_place() {
    for best in 0..4 {
        let mut game = Game::new(
            Scenario::standard(),
            vec![Player::new(PlayerColor::Red), Player::new(PlayerColor::Blue), Player::new(PlayerColor::White), Player::new(PlayerColor::Orange)],
        )
        .unwrap();
        let mut rolls = vec![Roll::new(1, 2).unwrap(); 4];
        rolls[best] = Roll::new(5, 6).unwrap();
        assert_eq!(game.set_players_order(rolls), Ok(()));
        let order: Vec<usize> = game.turn_order().iter().map(|p| p.value()).collect();
        assert_eq!(order, (0..4).map(|k| (best + k) % 4).collect::<Vec<_>>());
        let mut sorted = order.clone();
        sorted.sort();
        assert_eq!(sorted, vec![0, 1, 2, 3]);
        assert_eq!(game.current_player(), PlayerId::new(best));
    }
}

#[test]
fn tied_best_rolls_are_refused() {
    let mut game = standard_game_unordered();
    assert_eq!(
        game.set_players_order(vec![Roll::new(6, 6).unwrap(), Roll::new(6, 6).unwrap()]),
        Err(GameError::TiedRolls)
    );
    assert_eq!(game.turn_order().to_vec(), vec![PlayerId::new(0), PlayerId::new(1)]);
}

fn standard_game_unordered() -> Game {
    Game::new(Scenario::standard(), vec![Player::new(PlayerColor::Red), Player::new(PlayerColor::Blue)]).unwrap()
}

#[test]
fn the_number_of_players_is_checked() {
    assert_eq!(Game::new(Scenario::standard(), vec![Player::new(PlayerColor::Red)]).err(), Some(GameError::NotEnoughPlayers));
    let seven = (0..7).map(|_| Player::new(PlayerColor::Red)).collect();
    assert_eq!(Game::new(Scenario::standard(), seven).err(), Some(GameError::TooManyPlayers));
    let six = (0..6).map(|_| Player::new(PlayerColor::Red)).collect();
    assert!(Game::new(Scenario::standard(), six).is_ok());
}

#[test]
fn a_whole_game_keeps_the_distance_rule_and_ends_with_a_winner() {
    let mut game = standard_game(3);
    play_opening(&mut game);
    assert!(spaced(&game));
    let mut dice = Dice(2024);
    let mut turns = 0;
    while play_turn(&mut game, &mut dice) {
        assert!(spaced(&game));
        assert!(connected(&game));
        assert!(scores_counted(&game));
        turns += 1;
        if turns >= 5000 {
            let scores: Vec<u8> = game.players().iter().map(|p| p.score()).collect();
            let hands: Vec<ResourceCounts> = game.players().iter().map(|p| p.hand().resources()).collect();
            let built = game.board().unwrap().buildings().iter().filter(|b| b.is_some()).count();
            let roads = game.board().unwrap().roads().iter().filter(|r| r.is_some()).count();
            panic!("no winner after {turns} turns: scores {scores:?}, hands {hands:?}, {built} buildings, {roads} roads");
        }
    }
    assert!(spaced(&game));
    let GameStatus::End { winner } = game.status() else { panic!("the game should be over") };
    assert!(game.players()[winner.value()].score() >= 10);
    for p in game.players() {
        assert!(p.score() <= 10);
    }

    // Once over, every action is refused and nothing changes.
    let before = snapshot(&game);
    let p = game.current_player();
    assert_eq!(game.build_road(p, EdgeId::new(0)), Err(GameError::InvalidGameStatus));
    assert_eq!(game.build_settlement(p, VertexId::new(0)), Err(GameError::InvalidGameStatus));
    assert_eq!(game.upgrade_settlement_to_city(p, VertexId::new(0)), Err(GameError::InvalidGameStatus));
    assert_eq!(game.move_robber(p, TileId::new(0)), Err(GameError::InvalidGameStatus));
    assert_eq!(game.discard(p, ResourceCounts::default()), Err(GameError::InvalidGameStatus));
    assert_eq!(game.next_player(), Err(GameError::InvalidGameStatus));
    assert_eq!(game.apply_roll(Roll::new(2, 2).unwrap()), Err(GameError::InvalidGameStatus));
    assert_eq!(snapshot(&game), before);
}

#[test]
fn the_same_actions_give_the_same_game() {
    let mut a = standard_game(3);
    let mut b = standard_game(3);
    play_opening(&mut a);
    play_opening(&mut b);
    let mut da = Dice(99);
    let mut db = Dice(99);
    for _ in 0..60 {
        let ga = play_turn(&mut a, &mut da);
        let gb = play_turn(&mut b, &mut db);
        assert_eq!(ga, gb);
        assert_eq!(snapshot(&a), snapshot(&b));
        if !ga {
            break;
        }
    }
}

#[test]
fn the_next_player_follows_the_turn_order() {
    let mut game = standard_game(3);
    play_opening(&mut game);
    for _ in 0..6 {
        let expected = game.get_next_player();
        game.apply_roll(Roll::new(2, 2).unwrap()).unwrap();
        assert_eq!(game.next_player(), Ok(()));
        assert_eq!(game.current_player(), expected);
    }
}

#[test]
fn a_seven_asks_half_of_big_hands() {
    let mut game = standard_game(2);
    play_opening(&mut game);
    let mut dice = Dice(5);
    // Gather cards without ever rolling a seven, then roll one.
    for _ in 0..40 {
        let mut roll = dice.roll();
        while roll.value() == 7 {
            roll = dice.roll();
        }
        game.apply_roll(roll).unwrap();
        game.next_player().unwrap();
    }
    let counts: Vec<u8> = game.players().iter().map(|p| p.hand().count()).collect();
    match game.apply_roll(Roll::new(3, 4).unwrap()) {
        Ok(RollOutcome::RobberActivated { must_discard }) => {
            for (i, &c) in counts.iter().enumerate() {
                assert_eq!(must_discard[i], if c > 7 { c / 2 } else { 0 });
            }
            for i in counts.len()..6 {
                assert_eq!(must_discard[i], 0);
            }
            if must_discard.iter().all(|&d| d == 0) {
                assert_eq!(game.status(), GameStatus::AwaitingNewRobberLocation);
            } else {
                assert_eq!(game.status(), GameStatus::AwaitingDiscard { must_discard });
                discard_half(&mut game, must_discard);
                assert_eq!(game.status(), GameStatus::AwaitingNewRobberLocation);
                for (i, &c) in counts.iter().enumerate() {
                    assert_eq!(game.players()[i].hand().count(), c - must_discard[i]);
                }
            }
        }
        other => panic!("a seven should call the robber, got {other:?}"),
    }
}

#[test]
fn the_opening_goes_round_and_back() {
    let mut game = standard_game(4);
    let order: Vec<PlayerId> = game.turn_order().to_vec();
    let vertices = game.board().unwrap().topology().vertex_count();
    let edges = game.board().unwrap().topology().edge_count();
    let mut placers = Vec::new();
    while matches!(game.status(), GameStatus::FirstPlacementSettlement | GameStatus::SecondPlacementSettlement) {
        let p = game.current_player();
        placers.push(p);
        assert!((0..vertices).any(|v| game.build_settlement(p, VertexId::new(v)).is_ok()));
        assert_eq!(game.current_player(), p);
        assert!((0..edges).any(|e| game.build_road(p, EdgeId::new(e)).is_ok()));
    }
    let mut expected = order.clone();
    expected.extend(order.iter().rev());
    assert_eq!(placers, expected);
    assert_eq!(game.status(), GameStatus::AwaitingRoll);
    assert_eq!(game.current_player(), order[0]);
    assert!(connected(&game));
}
