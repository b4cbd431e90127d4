use catan::board::TerrainTokenMismatch;
use catan::geometry::{HexDirection, InvalidDirection, InvalidHexCorner};
use catan::{
    Board, EdgeId, GameError, GameStatus, HexCorner, InvalidAction, InvalidBoard, NumberToken,
    PlayerId, ResourceError, Terrain, Tile, TileId, Topology, VertexId,
};

#[test]
fn action_messages_name_the_place() {
    let cases = [
        (InvalidAction::UnexistingTile(TileId::new(7)), "La tuile 7 n'existe pas"),
        (InvalidAction::UnexistingVertex(VertexId::new(120)), "Le vertex 120 n'existe pas"),
        (InvalidAction::UnexistingEdge(EdgeId::new(0)), "L'arête 0 n'existe pas"),
        (InvalidAction::UnexistingBuilding(VertexId::new(2)), "Aucune construction sur l'emplacement 2"),
        (InvalidAction::RobberNotOnDesert, "Le voleur ne peut pas être déplacé sur un désert"),
        (InvalidAction::RobberMustMove, "Le voleur doit quitter sa tuile"),
        (InvalidAction::IsNotSettlement(VertexId::new(4)), "ce n'est pas une colonie sur l'emplacement 4"),
        (InvalidAction::VertexOccupied(VertexId::new(1)), "Le noeud 1 est occupé"),
        (
            InvalidAction::TooCloseToBuilding(VertexId::new(53)),
            "Le noeud est trop pproche du noeud 53 où il y a déjà une construction",
        ),
        (InvalidAction::EdgeOccupied(EdgeId::new(19)), "l'arête 19 est déjà occupée"),
        (InvalidAction::NotConnected, "pas connecté aux autres constructions du joueur"),
        (InvalidAction::RoadMustStartFromNewSettlement, "la route doit commencer par une nouvelle colonie"),
        (InvalidAction::NotYourSettlement(VertexId::new(20)), "ce n'est pas votre construction sur le noeud 20"),
        (InvalidAction::InvalidGameStatus, "Statut du jeu incompatible avec cette action"),
    ];
    for (e, text) in cases {
        assert_eq!(e.message(), text);
    }
}

#[test]
fn board_messages() {
    assert_eq!(
        InvalidBoard::WrongTileCount { expected: 19, got: 1000 }.message(),
        "nombre de tuiles invalide : attendu 19, obtenu 1000"
    );
    assert_eq!(InvalidBoard::WrongDistribution.message(), "la répartition ne correspond pas au scénario");
    assert_eq!(InvalidBoard::NoDesert.message(), "aucun désert dans la répartition");
    assert_eq!(InvalidBoard::InvalidRobber.message(), "Position du voleur invalide");
    assert_eq!(
        InvalidBoard::TerrainToken(TerrainTokenMismatch::MissingToken(Terrain::Hills)).message(),
        "Hills doit porter un jeton"
    );
    assert_eq!(
        InvalidBoard::TerrainToken(TerrainTokenMismatch::DesertHasNoToken).message(),
        "un désert ne peut pas porter de jeton"
    );
}

#[test]
fn small_error_messages() {
    assert_eq!(ResourceError::NotEnoughResources.message(), "Not enough resources");
    assert_eq!(ResourceError::IsEmpty.message(), "Resource is empty");
    assert_eq!(InvalidDirection(6).message(), "6 n'est pas une direction valide (0-5)");
    assert_eq!(InvalidHexCorner(10).message(), "10 n'est pas un corner valide (0-5)");
    assert_eq!(HexDirection::new(6).err(), Some(InvalidDirection(6)));
    assert_eq!(HexCorner::new(9).err(), Some(InvalidHexCorner(9)));
}

#[test]
fn errors_convert_into_game_errors() {
    assert_eq!(GameError::from(InvalidAction::NotConnected), GameError::Placement(InvalidAction::NotConnected));
    assert_eq!(
        GameError::from(InvalidBoard::WrongDistribution),
        GameError::BoardInitialization(InvalidBoard::WrongDistribution)
    );
    assert_eq!(
        InvalidBoard::from(TerrainTokenMismatch::DesertHasNoToken),
        InvalidBoard::TerrainToken(TerrainTokenMismatch::DesertHasNoToken)
    );
}

#[test]
fn terrain_and_token_must_agree() {
    let eight = NumberToken::new(8).unwrap();
    assert_eq!(Terrain::Desert.into_tile(Some(eight)), Err(TerrainTokenMismatch::DesertHasNoToken));
    assert_eq!(Terrain::Forest.into_tile(None), Err(TerrainTokenMismatch::MissingToken(Terrain::Forest)));
    assert_eq!(Terrain::Forest.into_tile(Some(eight)), Ok(Tile::Forest(eight)));
    assert!(NumberToken::new(7).is_err());
    assert!(NumberToken::new(1).is_err());
    assert!(NumberToken::new(13).is_err());
    assert_eq!(NumberToken::new(12).unwrap().value(), 12);
}

fn small_board() -> Board {
    Board::new(
        Topology::test_topology(),
        vec![
            Tile::Forest(NumberToken::new(6).unwrap()),
            Tile::Hills(NumberToken::new(8).unwrap()),
            Tile::Desert,
        ],
        TileId::new(2),
    )
    .unwrap()
}

#[test]
fn board_refusals() {
    let tiles = vec![Tile::Desert];
    assert_eq!(
        Board::new(Topology::test_topology(), tiles, TileId::new(0)),
        Err(InvalidBoard::WrongTileCount { expected: 3, got: 1 })
    );
    let tiles = vec![
        Tile::Forest(NumberToken::new(6).unwrap()),
        Tile::Hills(NumberToken::new(8).unwrap()),
        Tile::Desert,
    ];
    assert_eq!(Board::new(Topology::test_topology(), tiles, TileId::new(0)), Err(InvalidBoard::InvalidRobber));

    let mut board = small_board();
    assert_eq!(board.move_robber(TileId::new(3)), Err(InvalidAction::UnexistingTile(TileId::new(3))));
    assert_eq!(board.move_robber(TileId::new(2)), Err(InvalidAction::RobberNotOnDesert));
    assert_eq!(board.move_robber(TileId::new(0)), Ok(()));
    assert_eq!(board.move_robber(TileId::new(0)), Err(InvalidAction::RobberMustMove));
    assert_eq!(board.robber(), TileId::new(0));

    let vertices = board.topology().vertex_count();
    let edges = board.topology().edge_count();
    assert_eq!(
        board.upgrade_settlement_to_city(VertexId::new(vertices), PlayerId::new(0)),
        Err(InvalidAction::UnexistingVertex(VertexId::new(vertices)))
    );
    assert_eq!(
        board.upgrade_settlement_to_city(VertexId::new(0), PlayerId::new(0)),
        Err(InvalidAction::UnexistingBuilding(VertexId::new(0)))
    );
    assert_eq!(
        board.can_place_road(GameStatus::PlayingActions, EdgeId::new(edges), PlayerId::new(0)),
        Err(InvalidAction::UnexistingEdge(EdgeId::new(edges)))
    );
    assert_eq!(
        board.can_place_road(GameStatus::AwaitingRoll, EdgeId::new(0), PlayerId::new(0)),
        Err(InvalidAction::InvalidGameStatus)
    );
    assert_eq!(board.place_settlement(GameStatus::FirstPlacementSettlement, VertexId::new(0), PlayerId::new(0)), Ok(()));
    assert_eq!(
        board.place_settlement(GameStatus::FirstPlacementSettlement, VertexId::new(0), PlayerId::new(1)),
        Err(InvalidAction::VertexOccupied(VertexId::new(0)))
    );
    assert_eq!(board.upgrade_settlement_to_city(VertexId::new(0), PlayerId::new(0)), Ok(()));
    assert_eq!(
        board.upgrade_settlement_to_city(VertexId::new(0), PlayerId::new(0)),
        Err(InvalidAction::IsNotSettlement(VertexId::new(0)))
    );
}

#[test]
fn neighbours_of_a_building_are_refused() {
    let mut board = small_board();
    assert_eq!(board.place_settlement(GameStatus::FirstPlacementSettlement, VertexId::new(0), PlayerId::new(0)), Ok(()));
    let topology = board.topology();
    for [a, b] in topology.edges_endpoints().to_vec() {
        let other = if a == VertexId::new(0) { b } else if b == VertexId::new(0) { a } else { continue };
        assert_eq!(
            board.can_place_building(GameStatus::FirstPlacementSettlement, other, PlayerId::new(1)),
            Err(InvalidAction::TooCloseToBuilding(VertexId::new(0)))
        );
    }
    let neighbours = board.topology().vertex_neighbors(VertexId::new(0));
    assert!(!neighbours.is_empty());
    for v in neighbours {
        assert!(board.place_settlement(GameStatus::SecondPlacementSettlement, v, PlayerId::new(1)).is_err());
    }
}
