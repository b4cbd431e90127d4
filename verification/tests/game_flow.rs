use catan::{
    EdgeId, Game, GameError, GameStatus, InvalidAction, InvalidBoard, NumberToken, Player,
    PlayerColor, PlayerId, Production, ResourceCounts, Roll, RollOutcome, Scenario, Terrain, Tile,
    TileId, VertexId,
};

#[test]
fn partie_complete() {
    // 1. création + ordre des joueurs par les dés
    assert!(Game::new(Scenario::test_scenario(), vec![]).is_err());
    let mut game = Game::new(
        Scenario::test_scenario(),
        vec![
            Player::new(PlayerColor::White),
            Player::new(PlayerColor::Red),
            Player::new(PlayerColor::Blue),
        ],
    )
    .unwrap();

    assert_eq!(
        game.set_players_order(vec![Roll::new(2, 4).unwrap()]),
        Err(GameError::WrongRollCount)
    );
    assert_eq!(
        game.set_players_order(vec![
            Roll::new(2, 4).unwrap(),
            Roll::new(5, 2).unwrap(),
            Roll::new(3, 4).unwrap()
        ]),
        Err(GameError::TiedRolls)
    );
    assert_eq!(
        game.set_players_order(vec![
            Roll::new(2, 4).unwrap(),
            Roll::new(6, 2).unwrap(),
            Roll::new(3, 4).unwrap()
        ]),
        Ok(())
    );
    assert_eq!(
        game.turn_order().to_vec(),
        vec![PlayerId::new(1), PlayerId::new(2), PlayerId::new(0)]
    );
    assert_eq!(game.current_player(), PlayerId::new(1));

    assert_eq!(game.next_player(), Err(GameError::InvalidGameStatus));
    assert_eq!(game.apply_roll(Roll::new(4,2).unwrap()), Err(GameError::InvalidGameStatus));


    assert_eq!(game.status(), GameStatus::Starting);

    // 2. start() avec un agencement fixe (terrains non mélangés)
    assert_eq!(
        game.start(&vec![]),
        Err(GameError::BoardInitialization(
            InvalidBoard::WrongTileCount {
                expected: 3,
                got: 0
            }
        ))
    );
    assert_eq!(
        game.start(&vec![Terrain::Desert]),
        Err(GameError::BoardInitialization(
            InvalidBoard::WrongTileCount {
                expected: 3,
                got: 1
            }
        ))
    );
    assert_eq!(
        game.start(&vec![Terrain::Desert, Terrain::Forest]),
        Err(GameError::BoardInitialization(
            InvalidBoard::WrongTileCount {
                expected: 3,
                got: 2
            }
        ))
    );
    assert_eq!(
        game.start(&vec![
            Terrain::Desert,
            Terrain::Forest,
            Terrain::Mountain,
            Terrain::Fields
        ]),
        Err(GameError::BoardInitialization(
            InvalidBoard::WrongTileCount {
                expected: 3,
                got: 4
            }
        ))
    );
    assert_eq!(
        game.start(&vec![Terrain::Desert, Terrain::Forest, Terrain::Mountain]),
        Err(GameError::BoardInitialization(
            InvalidBoard::WrongDistribution
        ))
    );
    assert_eq!(game.start(&game.scenario().terrains().to_vec()), Ok(()));
    assert_eq!(
        game.board().unwrap().tiles().to_vec(),
        vec![
            Tile::Forest(NumberToken::new(6).unwrap()),
            Tile::Hills(NumberToken::new(8).unwrap()),
            Tile::Desert
        ]
    );

    game = Game::new(
        Scenario::standard(),
        vec![
            Player::new(PlayerColor::White),
            Player::new(PlayerColor::Red),
            Player::new(PlayerColor::Blue),
        ],
    )
    .unwrap();
    assert_eq!(
        game.set_players_order(vec![
            Roll::new(1, 4).unwrap(),
            Roll::new(6, 2).unwrap(),
            Roll::new(3, 4).unwrap()
        ]),
        Ok(())
    );
    assert_eq!(game.start(&game.scenario().terrains().to_vec()), Ok(()));

    assert_eq!(game.status(), GameStatus::FirstPlacementSettlement);
    assert_eq!(game.next_player(), Err(GameError::TurnDrivenByPlacement));
    assert_eq!(game.apply_roll(Roll::new(4,2).unwrap()), Err(GameError::InvalidGameStatus));

    assert_eq!(game.current_player(), PlayerId::new(1));
    assert_eq!(
        game.build_road(game.current_player(), EdgeId::new(46)),
        Err(GameError::InvalidGameStatus)
    );
    assert_eq!(
        game.build_settlement(PlayerId::new(2), VertexId::new(12)),
        Err(GameError::NotYourTurn)
    );
    assert_eq!(
        game.build_settlement(game.current_player(), VertexId::new(120)),
        Err(GameError::Placement(InvalidAction::UnexistingVertex(
            VertexId::new(120)
        )))
    );

    assert_eq!(
        game.build_settlement(game.current_player(), VertexId::new(1)),
        Ok(())
    );
    assert_eq!(game.current_player(), PlayerId::new(1));
    assert_eq!(game.status(), GameStatus::FirstPlacementRoad);
    assert_eq!(game.next_player(), Err(GameError::TurnDrivenByPlacement));
    assert_eq!(game.apply_roll(Roll::new(4,2).unwrap()), Err(GameError::InvalidGameStatus));

    assert_eq!(
        game.build_settlement(game.current_player(), VertexId::new(12)),
        Err(GameError::InvalidGameStatus)
    );
    assert_eq!(
        game.build_road(game.current_player(), EdgeId::new(899)),
        Err(GameError::Placement(InvalidAction::UnexistingEdge(
            EdgeId::new(899)
        )))
    );
    assert_eq!(
        game.build_road(game.current_player(), EdgeId::new(60)),
        Err(GameError::Placement(
            InvalidAction::RoadMustStartFromNewSettlement
        ))
    );
    assert_eq!(
        game.build_road(PlayerId::new(2), EdgeId::new(1)),
        Err(GameError::NotYourTurn)
    );
    assert_eq!(
        game.build_road(game.current_player(), EdgeId::new(1)),
        Ok(())
    );

    assert_eq!(game.status(), GameStatus::FirstPlacementSettlement);
    assert_eq!(game.current_player(), PlayerId::new(2));
    assert_eq!(
        game.build_settlement(game.current_player(), VertexId::new(46)),
        Err(GameError::Placement(InvalidAction::TooCloseToBuilding(
            VertexId::new(1)
        )))
    );
    assert_eq!(
        game.build_settlement(game.current_player(), VertexId::new(1)),
        Err(GameError::Placement(InvalidAction::VertexOccupied(
            VertexId::new(1)
        )))
    );
    assert_eq!(
        game.build_settlement(game.current_player(), VertexId::new(11)),
        Ok(())
    );

    assert_eq!(game.status(), GameStatus::FirstPlacementRoad);
    assert_eq!(game.current_player(), PlayerId::new(2));
    assert_eq!(
        game.build_road(game.current_player(), EdgeId::new(1)),
        Err(GameError::Placement(InvalidAction::EdgeOccupied(
            EdgeId::new(1)
        )))
    );
    assert_eq!(
        game.build_road(game.current_player(), EdgeId::new(2)),
        Err(GameError::Placement(
            InvalidAction::RoadMustStartFromNewSettlement
        ))
    );
    assert_eq!(
        game.build_road(game.current_player(), EdgeId::new(19)),
        Ok(())
    );

    assert_eq!(game.status(), GameStatus::FirstPlacementSettlement);
    assert_eq!(game.current_player(), PlayerId::new(0));
    assert_eq!(
        game.build_settlement(game.current_player(), VertexId::new(40)),
        Ok(())
    );

    assert_eq!(game.status(), GameStatus::FirstPlacementRoad);
    assert_eq!(game.current_player(), PlayerId::new(0));
    assert_eq!(
        game.build_road(game.current_player(), EdgeId::new(50)),
        Ok(())
    );

    assert_eq!(game.status(), GameStatus::SecondPlacementSettlement);
    assert_eq!(game.next_player(), Err(GameError::TurnDrivenByPlacement));
    assert_eq!(game.apply_roll(Roll::new(4,2).unwrap()), Err(GameError::InvalidGameStatus));


    assert_eq!(game.current_player(), PlayerId::new(0));
    assert_eq!(
        game.build_settlement(game.current_player(), VertexId::new(20)),
        Ok(())
    );
    assert_eq!(
        game.players()[game.current_player().value()]
            .hand()
            .resources(),
        ResourceCounts::new([1, 0, 0, 1, 1])
    );

    assert_eq!(game.status(), GameStatus::SecondPlacementRoad);
    assert_eq!(game.next_player(), Err(GameError::TurnDrivenByPlacement));
    assert_eq!(game.apply_roll(Roll::new(4,2).unwrap()), Err(GameError::InvalidGameStatus));

    assert_eq!(game.current_player(), PlayerId::new(0));
    assert_eq!(
        game.build_road(game.current_player(), EdgeId::new(49)),
        Err(GameError::Placement(
            InvalidAction::RoadMustStartFromNewSettlement
        ))
    );
    assert_eq!(
        game.build_road(game.current_player(), EdgeId::new(46)),
        Err(GameError::Placement(
            InvalidAction::RoadMustStartFromNewSettlement
        ))
    );
    assert_eq!(
        game.build_road(game.current_player(), EdgeId::new(23)),
        Ok(())
    );

    assert_eq!(game.status(), GameStatus::SecondPlacementSettlement);
    assert_eq!(game.current_player(), PlayerId::new(2));
    assert_eq!(
        game.build_settlement(game.current_player(), VertexId::new(44)),
        Ok(())
    );
    assert_eq!(
        game.players()[game.current_player().value()]
            .hand()
            .resources(),
        ResourceCounts::new([0, 0, 1, 1, 0])
    );

    assert_eq!(game.status(), GameStatus::SecondPlacementRoad);
    assert_eq!(game.current_player(), PlayerId::new(2));
    assert_eq!(
        game.build_road(game.current_player(), EdgeId::new(54)),
        Ok(())
    );

    assert_eq!(game.status(), GameStatus::SecondPlacementSettlement);
    assert_eq!(game.current_player(), PlayerId::new(1));
    assert_eq!(
        game.build_settlement(game.current_player(), VertexId::new(33)),
        Ok(())
    );
    assert_eq!(
        game.players()[game.current_player().value()]
            .hand()
            .resources(),
        ResourceCounts::new([1, 1, 0, 0, 1])
    );

    assert_eq!(game.status(), GameStatus::SecondPlacementRoad);
    assert_eq!(game.current_player(), PlayerId::new(1));
    assert_eq!(
        game.build_road(game.current_player(), EdgeId::new(67)),
        Ok(())
    );

    assert_eq!(game.status(), GameStatus::AwaitingRoll);
    assert_eq!(game.current_player(), PlayerId::new(1));
    assert_eq!(game.build_road(PlayerId::new(2), EdgeId::new(8)), Err(GameError::InvalidGameStatus));
    assert_eq!(game.build_settlement(game.current_player(), VertexId::new(7)), Err(GameError::InvalidGameStatus));
    assert_eq!(game.next_player(), Err(GameError::InvalidGameStatus));
    assert_eq!(game.upgrade_settlement_to_city(game.current_player(), VertexId::new(1)), Err(GameError::InvalidGameStatus));


    assert_eq!(game.apply_roll(Roll::new(4,5).unwrap()), Ok(RollOutcome::Production(Production::new(&[(PlayerId::new(1), [0,0,1,0,0])]))));

    assert_eq!(game.status(), GameStatus::PlayingActions);

    assert_eq!(game.apply_roll(Roll::new(4,5).unwrap()), Err(GameError::InvalidGameStatus));

    assert_eq!(game.current_player(), PlayerId::new(1));
    assert_eq!(game.players()[1].hand().resources(), ResourceCounts::new([1, 1, 1, 0, 1]));
    assert_eq!(game.build_road(PlayerId::new(2), EdgeId::new(8)), Err(GameError::NotYourTurn));
    assert_eq!(game.build_road(game.current_player(), EdgeId::new(8)), Ok(()));
    assert_eq!(game.players()[1].hand().resources(), ResourceCounts::new([0, 1, 0, 0, 1]));
    assert_eq!(game.build_settlement(game.current_player(), VertexId::new(7)), Err(GameError::NotEnoughResources));
    assert_eq!(game.build_road(game.current_player(), EdgeId::new(7)), Err(GameError::NotEnoughResources));

    assert_eq!(game.next_player(), Ok(()));
    assert_eq!(game.current_player(), PlayerId::new(2));
    assert_eq!(game.apply_roll(Roll::new(3,6).unwrap()), Ok(RollOutcome::Production(Production::new(&[(PlayerId::new(1), [0,0,1,0,0])]))));
    assert_eq!(game.players()[1].hand().resources(), ResourceCounts::new([0, 1, 1, 0, 1]));

    assert_eq!(game.next_player(), Ok(()));
    assert_eq!(game.current_player(), PlayerId::new(0));
    assert_eq!(game.apply_roll(Roll::new(3,3).unwrap()), Ok(RollOutcome::Production(Production::new(&[(PlayerId::new(1), [0,1,0,0,0]), (PlayerId::new(2), [1,0,0,0,0])]))));
    assert_eq!(game.players()[1].hand().resources(), ResourceCounts::new([0, 2, 1, 0, 1]));
    assert_eq!(game.players()[2].hand().resources(), ResourceCounts::new([1, 0, 1, 1, 0]));

    assert_eq!(game.next_player(), Ok(()));
    assert_eq!(game.current_player(), PlayerId::new(1));
    assert_eq!(game.apply_roll(Roll::new(6,4).unwrap()), Ok(RollOutcome::Production(Production::new(&[(PlayerId::new(0), [1,0,0,0,0]), (PlayerId::new(1), [0,0,0,1,0]),  (PlayerId::new(2), [0,0,0,1,0])]))));
    assert_eq!(game.players()[0].hand().resources(), ResourceCounts::new([2, 0, 0, 1, 1]));
    assert_eq!(game.players()[1].hand().resources(), ResourceCounts::new([0, 2, 1, 1, 1]));
    assert_eq!(game.players()[2].hand().resources(), ResourceCounts::new([1, 0, 1, 2, 0]));

    assert_eq!(game.next_player(), Ok(()));
    assert_eq!(game.current_player(), PlayerId::new(2));
    assert_eq!(game.apply_roll(Roll::new(4,6).unwrap()), Ok(RollOutcome::Production(Production::new(&[(PlayerId::new(0), [1,0,0,0,0]), (PlayerId::new(1), [0,0,0,1,0]),  (PlayerId::new(2), [0,0,0,1,0])]))));
    assert_eq!(game.players()[0].hand().resources(), ResourceCounts::new([3, 0, 0, 1, 1]));
    assert_eq!(game.players()[1].hand().resources(), ResourceCounts::new([0, 2, 1, 2, 1]));
    assert_eq!(game.players()[2].hand().resources(), ResourceCounts::new([1, 0, 1, 3, 0]));

    assert_eq!(game.next_player(), Ok(()));
    assert_eq!(game.current_player(), PlayerId::new(0));
    assert_eq!(game.apply_roll(Roll::new(4,2).unwrap()), Ok(RollOutcome::Production(Production::new(&[(PlayerId::new(1), [0,1,0,0,0]), (PlayerId::new(2), [1,0,0,0,0])]))));
    assert_eq!(game.players()[0].hand().resources(), ResourceCounts::new([3, 0, 0, 1, 1]));
    assert_eq!(game.players()[1].hand().resources(), ResourceCounts::new([0, 3, 1, 2, 1]));
    assert_eq!(game.players()[2].hand().resources(), ResourceCounts::new([2, 0, 1, 3, 0]));

    assert_eq!(game.next_player(), Ok(()));
    assert_eq!(game.current_player(), PlayerId::new(1));
    assert_eq!(game.apply_roll(Roll::new(3,2).unwrap()), Ok(RollOutcome::Production(Production::new(&[(PlayerId::new(0), [0,0,0,1,0]), (PlayerId::new(1), [1,0,0,0,0])]))));
    assert_eq!(game.players()[0].hand().resources(), ResourceCounts::new([3, 0, 0, 2, 1]));
    assert_eq!(game.players()[1].hand().resources(), ResourceCounts::new([1, 3, 1, 2, 1]));
    assert_eq!(game.players()[2].hand().resources(), ResourceCounts::new([2, 0, 1, 3, 0]));
    assert_eq!(game.upgrade_settlement_to_city(game.current_player(), VertexId::new(20)), Err(GameError::Placement(InvalidAction::NotYourSettlement(VertexId::new(20)))));
    assert_eq!(game.upgrade_settlement_to_city(game.current_player(), VertexId::new(2)), Err(GameError::Placement(InvalidAction::UnexistingBuilding(VertexId::new(2)))));
    assert_eq!(game.upgrade_settlement_to_city(game.current_player(), VertexId::new(1)), Ok(()));
    assert_eq!(game.players()[1].hand().resources(), ResourceCounts::new([1, 0, 1, 0, 1]));

    assert_eq!(game.next_player(), Ok(()));
    assert_eq!(game.status(), GameStatus::AwaitingRoll);
    assert_eq!(game.current_player(), PlayerId::new(2));

    assert_eq!(game.apply_roll(Roll::new(3,4).unwrap()), Ok(RollOutcome::RobberActivated {must_discard : [0; 6]}));
    assert_eq!(game.status(), GameStatus::AwaitingNewRobberLocation);
    assert_eq!(game.next_player(), Err(GameError::InvalidGameStatus));
    assert_eq!(game.upgrade_settlement_to_city(game.current_player(), VertexId::new(20)), Err(GameError::InvalidGameStatus));
    assert_eq!(game.build_settlement(game.current_player(), VertexId::new(20)), Err(GameError::InvalidGameStatus));
    assert_eq!(game.build_road(game.current_player(), EdgeId::new(20)), Err(GameError::InvalidGameStatus));
    assert_eq!(game.apply_roll(Roll::new(3,4).unwrap()), Err(GameError::InvalidGameStatus));
    assert_eq!(game.move_robber(game.current_player(), TileId::new(18)), Err(GameError::Placement(InvalidAction::RobberNotOnDesert)));

    assert_eq!(game.move_robber(game.current_player(), TileId::new(4)), Ok(()));
    assert_eq!(game.status(), GameStatus::PlayingActions);
    assert_eq!(game.current_player(), PlayerId::new(2));

    assert_eq!(game.players()[2].hand().resources(), ResourceCounts::new([2, 0, 1, 3, 0]));
    assert_eq!(game.build_road(game.current_player(), EdgeId::new(18)), Ok(()));
    assert_eq!(game.players()[0].hand().resources(), ResourceCounts::new([3, 0, 0, 2, 1]));
    assert_eq!(game.players()[1].hand().resources(), ResourceCounts::new([1, 0, 1, 0, 1]));
    assert_eq!(game.players()[2].hand().resources(), ResourceCounts::new([1, 0, 0, 3, 0]));


    assert_eq!(game.next_player(), Ok(()));
    assert_eq!(game.status(), GameStatus::AwaitingRoll);
    assert_eq!(game.current_player(), PlayerId::new(0));
    assert_eq!(game.apply_roll(Roll::new(3,6).unwrap()), Ok(RollOutcome::Production(Production::new(&[(PlayerId::new(1), [0,0,2,0,0])]))));
    assert_eq!(game.status(), GameStatus::PlayingActions);
    assert_eq!(game.players()[0].hand().resources(), ResourceCounts::new([3, 0, 0, 2, 1]));
    assert_eq!(game.players()[1].hand().resources(), ResourceCounts::new([1, 0, 3, 0, 1]));
    assert_eq!(game.players()[2].hand().resources(), ResourceCounts::new([1, 0, 0, 3, 0]));

    assert_eq!(game.next_player(), Ok(()));
    assert_eq!(game.status(), GameStatus::AwaitingRoll);
    assert_eq!(game.current_player(), PlayerId::new(1));
    assert_eq!(game.apply_roll(Roll::new(3,2).unwrap()), Ok(RollOutcome::Production(Production::new(&[(PlayerId::new(0), [0,0,0,1,0]), (PlayerId::new(1), [2,0,0,0,0])]))));
    assert_eq!(game.players()[0].hand().resources(), ResourceCounts::new([3, 0, 0, 3, 1]));
    assert_eq!(game.players()[1].hand().resources(), ResourceCounts::new([3, 0, 3, 0, 1]));
    assert_eq!(game.players()[2].hand().resources(), ResourceCounts::new([1, 0, 0, 3, 0]));

    assert_eq!(game.next_player(), Ok(()));
    assert_eq!(game.status(), GameStatus::AwaitingRoll);
    assert_eq!(game.current_player(), PlayerId::new(2));
    assert_eq!(game.apply_roll(Roll::new(3,2).unwrap()), Ok(RollOutcome::Production(Production::new(&[(PlayerId::new(0), [0,0,0,1,0]), (PlayerId::new(1), [2,0,0,0,0])]))));
    assert_eq!(game.players()[0].hand().resources(), ResourceCounts::new([3, 0, 0, 4, 1]));
    assert_eq!(game.players()[1].hand().resources(), ResourceCounts::new([5, 0, 3, 0, 1]));
    assert_eq!(game.players()[2].hand().resources(), ResourceCounts::new([1, 0, 0, 3, 0]));

    assert_eq!(game.next_player(), Ok(()));
    assert_eq!(game.status(), GameStatus::AwaitingRoll);
    assert_eq!(game.current_player(), PlayerId::new(0));
    assert_eq!(game.apply_roll(Roll::new(1,6).unwrap()), Ok(RollOutcome::RobberActivated {must_discard : [4, 4, 0, 0, 0, 0]}));
    assert_eq!(game.status(), GameStatus::AwaitingDiscard {must_discard : [4, 4, 0, 0, 0, 0]});
    assert_eq!(game.discard(PlayerId::new(8), ResourceCounts::new([0,0,0,0,0])), Err(GameError::PlayerNotFound(PlayerId::new(8))));
    assert_eq!(game.discard(PlayerId::new(4), ResourceCounts::new([0,0,0,0,0])), Err(GameError::PlayerNotFound(PlayerId::new(4))));
    assert_eq!(game.discard(PlayerId::new(2), ResourceCounts::new([0,0,0,0,0])), Err(GameError::PlayerDontNeedToDiscard));
    assert_eq!(game.status(), GameStatus::AwaitingDiscard {must_discard : [4, 4, 0, 0, 0, 0]});
    assert_eq!(game.next_player(), Err(GameError::InvalidGameStatus));
    assert_eq!(game.upgrade_settlement_to_city(game.current_player(), VertexId::new(20)), Err(GameError::InvalidGameStatus));
    assert_eq!(game.build_settlement(game.current_player(), VertexId::new(20)), Err(GameError::InvalidGameStatus));
    assert_eq!(game.build_road(game.current_player(), EdgeId::new(20)), Err(GameError::InvalidGameStatus));
    assert_eq!(game.apply_roll(Roll::new(3,4).unwrap()), Err(GameError::InvalidGameStatus));

    assert_eq!(game.discard(PlayerId::new(0), ResourceCounts::new([7,0,0,0,0])), Err(GameError::InvalidDiscardCount));
    assert_eq!(game.discard(PlayerId::new(0), ResourceCounts::new([1,0,0,0,0])), Err(GameError::InvalidDiscardCount));
    assert_eq!(game.discard(PlayerId::new(0), ResourceCounts::new([4,0,0,0,0])), Err(GameError::NotEnoughResources));

    assert_eq!(game.discard(PlayerId::new(0), ResourceCounts::new([2,0,0,2,0])), Ok(()));
    assert_eq!(game.status(), GameStatus::AwaitingDiscard {must_discard : [0, 4, 0, 0, 0, 0]});
    assert_eq!(game.discard(PlayerId::new(0), ResourceCounts::new([0,0,0,0,0])), Err(GameError::PlayerDontNeedToDiscard));
    assert_eq!(game.discard(PlayerId::new(1), ResourceCounts::new([4,0,0,0,0])), Ok(()));
    assert_eq!(game.status(), GameStatus::AwaitingNewRobberLocation);

    assert_eq!(game.players()[0].hand().resources(), ResourceCounts::new([1, 0, 0, 2, 1]));
    assert_eq!(game.players()[1].hand().resources(), ResourceCounts::new([1, 0, 3, 0, 1]));
    assert_eq!(game.players()[2].hand().resources(), ResourceCounts::new([1, 0, 0, 3, 0]));

    assert_eq!(game.move_robber(game.current_player(), game.board().unwrap().robber()), Err(GameError::Placement(InvalidAction::RobberMustMove)));
    assert_eq!(game.move_robber(game.current_player(), TileId::new(12)), Ok(()));

    assert_eq!(game.status(), GameStatus::PlayingActions);


}
