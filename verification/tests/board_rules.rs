use catan::{
    Board, BuildingKind, EdgeId, Gain, GameStatus, InvalidAction, NumberToken, PlayerId, Production, Resource,
    ResourceCounts, Roll, Tile, TileId, Topology, VertexId,
};

fn init_board_without_buildings() -> Board {
    let topology = Topology::test_topology();
    Board::new(
        topology,
        vec![
            Tile::Forest(NumberToken::new(6).unwrap()),
            Tile::Hills(NumberToken::new(8).unwrap()),
            Tile::Desert,
        ],
        TileId::new(2),
    )
    .unwrap()
}

fn init_board() -> Board {
    let mut board = init_board_without_buildings();
    board
        .place_settlement(GameStatus::FirstPlacementSettlement, VertexId::new(4), PlayerId::new(1))
        .unwrap();
    board.upgrade_settlement_to_city(VertexId::new(4), PlayerId::new(1)).unwrap();
    board
        .place_settlement(GameStatus::FirstPlacementSettlement, VertexId::new(8), PlayerId::new(1))
        .unwrap();
    board.move_robber(TileId::new(1)).unwrap();
    board.place_road(GameStatus::FirstPlacementRoad, EdgeId::new(5), PlayerId::new(1)).unwrap();
    board.place_road(GameStatus::FirstPlacementRoad, EdgeId::new(9), PlayerId::new(1)).unwrap();
    board
}

#[test]
fn test_production() {
    let board = init_board();
    let mut expected_production = Production::default();
    expected_production.add_gain(Gain {
        player: PlayerId::new(1),
        resources: ResourceCounts::new([2, 0, 0, 0, 0]),
    });
    assert_eq!(board.production(Roll::new(2, 4).unwrap()), expected_production)
}

#[test]
fn test_production_with_robber() {
    let board = init_board();
    let expected_production = Production::default();
    assert_eq!(board.production(Roll::new(4, 4).unwrap()), expected_production)
}

#[test]
fn test_production_with_no_buildings() {
    let board = init_board();
    let expected_production = Production::default();
    assert_eq!(board.production(Roll::new(4, 4).unwrap()), expected_production)
}

#[test]
fn test_can_place_building_ok() {
    let board = init_board_without_buildings();
    assert!(board
        .can_place_building(GameStatus::FirstPlacementSettlement, VertexId::new(0), PlayerId::new(1))
        .is_ok());
}

#[test]
fn test_can_place_building_ko_road() {
    let board = init_board_without_buildings();
    assert!(matches!(
        board.can_place_building(GameStatus::PlayingActions, VertexId::new(0), PlayerId::new(1)),
        Err(InvalidAction::NotConnected)
    ));
}

#[test]
fn test_can_place_building_ko_neighbor() {
    let board = init_board();
    assert!(matches!(
        board.can_place_building(GameStatus::FirstPlacementSettlement, VertexId::new(3), PlayerId::new(0)),
        Err(InvalidAction::TooCloseToBuilding(_))
    ));
}

#[test]
fn test_upgrade_settlement_ok() {
    let mut board = init_board();
    board.upgrade_settlement_to_city(VertexId::new(8), PlayerId::new(1)).unwrap();
    assert_eq!(board.buildings()[8].unwrap().kind(), BuildingKind::City);
}

#[test]
fn test_upgrade_settlement_ko_wrong_player() {
    let mut board = init_board();
    assert!(matches!(
        board.upgrade_settlement_to_city(VertexId::new(8), PlayerId::new(0)),
        Err(InvalidAction::NotYourSettlement(_))
    ));
}

#[test]
fn test_upgrade_settlement_ko_wrong_kind() {
    let mut board = init_board();
    assert!(board.upgrade_settlement_to_city(VertexId::new(4), PlayerId::new(1)).is_err())
}

#[test]
fn test_can_place_road_during_placement_ok() {
    let mut board = init_board();
    assert_eq!(
        board.place_settlement(GameStatus::FirstPlacementSettlement, VertexId::new(6), PlayerId::new(1)),
        Ok(())
    );
    assert_eq!(
        board.can_place_road(GameStatus::FirstPlacementRoad, EdgeId::new(6), PlayerId::new(1)),
        Ok(())
    );
}

#[test]
fn test_can_place_road_during_placement_ko() {
    let board = init_board();
    assert_eq!(
        board.can_place_road(GameStatus::FirstPlacementRoad, EdgeId::new(9), PlayerId::new(0)),
        Err(InvalidAction::EdgeOccupied(EdgeId::new(9)))
    );
    assert_eq!(
        board.can_place_road(GameStatus::FirstPlacementRoad, EdgeId::new(11), PlayerId::new(1)),
        Err(InvalidAction::RoadMustStartFromNewSettlement)
    );
}

#[test]
fn test_can_place_road_during_placement_ko_two_road_to_the_same_building() {
    let board = init_board();
    assert!(matches!(
        board.can_place_road(GameStatus::FirstPlacementRoad, EdgeId::new(4), PlayerId::new(1)),
        Err(InvalidAction::RoadMustStartFromNewSettlement)
    ));
    assert!(matches!(
        board.can_place_road(GameStatus::FirstPlacementRoad, EdgeId::new(5), PlayerId::new(1)),
        Err(InvalidAction::EdgeOccupied(_))
    ));
}

#[test]
fn test_can_place_road_during_placement_ko_second_road_consecutive_to_first_road() {
    let board = init_board();
    assert_eq!(
        board.can_place_road(GameStatus::FirstPlacementRoad, EdgeId::new(0), PlayerId::new(1)),
        Err(InvalidAction::RoadMustStartFromNewSettlement)
    );
    assert!(matches!(
        board.can_place_road(GameStatus::FirstPlacementRoad, EdgeId::new(4), PlayerId::new(1)),
        Err(InvalidAction::RoadMustStartFromNewSettlement)
    ));
}

#[test]
fn test_can_place_road_during_playing_ko() {
    let board = init_board();
    assert!(matches!(
        board.can_place_road(GameStatus::PlayingActions, EdgeId::new(13), PlayerId::new(1)),
        Err(InvalidAction::NotConnected)
    ));
    assert!(matches!(
        board.can_place_road(GameStatus::PlayingActions, EdgeId::new(10), PlayerId::new(0)),
        Err(InvalidAction::NotConnected)
    ));
    assert!(matches!(
        board.can_place_road(GameStatus::PlayingActions, EdgeId::new(0), PlayerId::new(0)),
        Err(InvalidAction::NotConnected)
    ));
}

#[test]
fn test_can_place_road_during_playing_ok() {
    let board = init_board();
    assert!(board.can_place_road(GameStatus::PlayingActions, EdgeId::new(4), PlayerId::new(1)).is_ok());
    assert_eq!(
        board.can_place_road(GameStatus::PlayingActions, EdgeId::new(10), PlayerId::new(1)),
        Ok(())
    );
}

#[test]
fn test_place_road_during_playing_ok() {
    let mut board = init_board();
    board.place_road(GameStatus::PlayingActions, EdgeId::new(0), PlayerId::new(1)).unwrap();
    board.place_road(GameStatus::PlayingActions, EdgeId::new(10), PlayerId::new(1)).unwrap();
    assert_eq!(board.roads()[0].unwrap(), PlayerId::new(1));
    assert_eq!(board.roads()[10].unwrap(), PlayerId::new(1));
}

#[test]
fn test_place_road_during_playing_ko() {
    let mut board = init_board();
    assert!(board.place_road(GameStatus::PlayingActions, EdgeId::new(3), PlayerId::new(1)).is_err());
    assert!(board.place_road(GameStatus::PlayingActions, EdgeId::new(7), PlayerId::new(1)).is_err());
    assert_eq!(board.roads()[3], None);
    assert_eq!(board.roads()[7], None);
}

#[test]
fn test_place_road_during_placement_ko() {
    let mut board = init_board();
    assert!(board.place_road(GameStatus::FirstPlacementRoad, EdgeId::new(0), PlayerId::new(1)).is_err());
    assert!(board.place_road(GameStatus::FirstPlacementRoad, EdgeId::new(4), PlayerId::new(1)).is_err());
    assert_eq!(board.roads()[0], None);
    assert_eq!(board.roads()[4], None);
}

#[test]
fn test_place_road_during_placement_ok() {
    let mut board = init_board();
    assert_eq!(
        board.place_settlement(GameStatus::FirstPlacementSettlement, VertexId::new(6), PlayerId::new(1)),
        Ok(())
    );
    assert_eq!(
        board.place_road(GameStatus::FirstPlacementRoad, EdgeId::new(6), PlayerId::new(1)),
        Ok(())
    );
    assert_eq!(board.roads()[6].unwrap(), PlayerId::new(1));
}

#[test]
fn test_resources_around() {
    let board = init_board();
    let expected_resources: Vec<Resource> = vec![Resource::Wood];
    assert_eq!(board.resources_around(VertexId::new(4)), expected_resources);
    let expected_resources: Vec<Resource> = vec![Resource::Brick];
    assert_eq!(board.resources_around(VertexId::new(8)), expected_resources);
    let expected_resources: Vec<Resource> = vec![Resource::Wood, Resource::Brick];
    assert_eq!(board.resources_around(VertexId::new(0)), expected_resources);
}
