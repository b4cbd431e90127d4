use std::collections::HashMap;

use catan::{InvalidBoard, NumberToken, Scenario, Terrain, TileId};

#[test]
fn test_scenario_standard() {
    let scenario = Scenario::standard();
    assert_eq!(scenario.terrains().len(), 19);
    assert_eq!(scenario.token_sequence().len(), 18);

    let mut occ_bag = HashMap::new();
    for terrain in scenario.terrains() {
        *occ_bag.entry(*terrain).or_insert(0) += 1;
    }
    assert_eq!(occ_bag[&Terrain::Desert], 1);
    assert_eq!(occ_bag[&Terrain::Pasture], 4);
    assert_eq!(occ_bag[&Terrain::Fields], 4);
    assert_eq!(occ_bag[&Terrain::Hills], 3);
    assert_eq!(occ_bag[&Terrain::Mountain], 3);
    assert_eq!(occ_bag[&Terrain::Forest], 4);

    let mut occ_sequence = HashMap::new();
    for token in scenario.token_sequence() {
        *occ_sequence.entry(*token).or_insert(0) += 1;
    }

    for i in 3..=11 {
        if i == 7 {
            continue;
        }
        assert_eq!(occ_sequence[&NumberToken::new(i).unwrap()], 2);
    }
    assert_eq!(occ_sequence[&NumberToken::new(2).unwrap()], 1);
    assert_eq!(occ_sequence[&NumberToken::new(12).unwrap()], 1);
}

#[test]
fn robber_and_tokens_follow_the_desert() {
    let scenario = Scenario::standard();

    for desert_pos in 0..scenario.terrains().len() {
        let mut bag = scenario.terrains().to_vec();
        let current = bag.iter().position(|t| *t == Terrain::Desert).unwrap();
        bag.swap(current, desert_pos);

        let board = scenario.layout(&bag).unwrap();

        assert_eq!(board.robber(), TileId::new(desert_pos));

        let mut expected = scenario.token_sequence().iter().copied();
        for (i, tile) in board.tiles().iter().enumerate() {
            if i == desert_pos {
                assert_eq!(tile.number(), None, "le désert ne doit pas avoir de jeton");
            } else {
                assert_eq!(tile.number(), expected.next(), "décalage en position {i}");
            }
        }
        assert!(expected.next().is_none(), "des jetons n'ont pas été posés");
    }
}

#[test]
fn rejects_wrong_tile_count() {
    let scenario = Scenario::standard();
    let short = &scenario.terrains()[..18];
    assert_eq!(scenario.layout(short), Err(InvalidBoard::WrongTileCount { expected: 19, got: 18 }));
}

#[test]
fn rejects_wrong_distribution() {
    let scenario = Scenario::standard();
    let mut bag = scenario.terrains().to_vec();
    let i = bag.iter().position(|t| *t == Terrain::Pasture).unwrap();
    bag[i] = Terrain::Forest;
    assert_eq!(scenario.layout(&bag), Err(InvalidBoard::WrongDistribution));
}

#[test]
fn same_arrangement_gives_same_board() {
    let scenario = Scenario::standard();
    let bag = scenario.terrains().to_vec();
    assert_eq!(scenario.layout(&bag).unwrap(), scenario.layout(&bag).unwrap());
}

#[test]
fn standard_never_puts_red_numbers_side_by_side() {
    let scenario = Scenario::standard();

    for desert_pos in 0..scenario.terrains().len() {
        let mut bag = scenario.terrains().to_vec();
        let current = bag.iter().position(|t| *t == Terrain::Desert).unwrap();
        bag.swap(current, desert_pos);
        let board = scenario.layout(&bag).unwrap();

        for (a, b) in board.topology().adjacent_tile_pairs() {
            let is_red = |t: TileId| {
                matches!(board.tiles()[t.value()].number().map(|n| n.value()), Some(6) | Some(8))
            };
            assert!(
                !(is_red(a) && is_red(b)),
                "numéros rouges adjacents, désert en position {desert_pos}"
            );
        }
    }
}
