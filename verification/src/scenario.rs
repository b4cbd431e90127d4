use vstd::prelude::*;

use crate::board::tile::{make_tile, terrain_slot};
use crate::board::{Board, BoardView, InvalidBoard, NumberToken, Terrain, Tile};
use crate::geometry::topology::{spiral_of, TopologyView};
use crate::geometry::{Hex, TileId, Topology};

verus! {

/// How many of the first `n` terrains of `s` are `t`.
pub open spec fn count_of(s: Seq<Terrain>, t: Terrain, n: int) -> int
    decreases n,
{
    if n <= 0 {
        0
    } else if s[n - 1] == t {
        count_of(s, t, n - 1) + 1
    } else {
        count_of(s, t, n - 1)
    }
}

/// `a` and `b` hold each terrain the same number of times.
pub open spec fn same_distribution(a: Seq<Terrain>, b: Seq<Terrain>) -> bool {
    forall|t: Terrain| count_of(a, t, a.len() as int) == count_of(b, t, b.len() as int)
}

/// How many tokens are laid before tile `i`: one per earlier tile that is
/// not a desert.
pub open spec fn tokens_before(s: Seq<Terrain>, i: int) -> int {
    i - count_of(s, Terrain::Desert, i)
}

/// The tile laid at position `i`: deserts get no token, every other
/// terrain gets the next token of the sequence.
pub open spec fn laid_tile(s: Seq<Terrain>, tokens: Seq<NumberToken>, i: int) -> Tile {
    if s[i] == Terrain::Desert {
        Tile::Desert
    } else {
        match make_tile(s[i], Some(tokens[tokens_before(s, i)])) {
            Ok(t) => t,
            Err(_) => Tile::Desert,
        }
    }
}

/// `i` is the position of the first desert of `s`.
pub open spec fn first_desert_at(s: Seq<Terrain>, i: int) -> bool {
    0 <= i < s.len() && s[i] == Terrain::Desert && forall|k: int| 0 <= k < i ==> s[k] != Terrain::Desert
}

/// A board variant: its shape, the terrains to lay and the tokens, in the
/// order they are laid.
pub struct ScenarioView {
    pub topology: TopologyView,
    pub terrains: Seq<Terrain>,
    pub tokens: Seq<NumberToken>,
}

impl ScenarioView {
    /// One terrain per tile, at least one desert, one token per other tile.
    pub open spec fn wf(self) -> bool {
        &&& self.topology.wf()
        &&& self.terrains.len() == self.topology.hexes.len()
        &&& count_of(self.terrains, Terrain::Desert, self.terrains.len() as int) >= 1
        &&& self.tokens.len() == tokens_before(self.terrains, self.terrains.len() as int)
    }

    /// The board that laying `shuffled` gives.
    pub open spec fn laid(self, shuffled: Seq<Terrain>, b: BoardView) -> bool {
        &&& b.wf()
        &&& b.topology == self.topology
        &&& b.tiles.len() == shuffled.len()
        &&& forall|i: int| 0 <= i < shuffled.len() ==> #[trigger] b.tiles[i] == laid_tile(shuffled, self.tokens, i)
        &&& first_desert_at(shuffled, b.robber.0 as int)
        &&& forall|i: int| 0 <= i < b.buildings.len() ==> #[trigger] b.buildings[i] is None
        &&& forall|i: int| 0 <= i < b.roads.len() ==> #[trigger] b.roads[i] is None
    }
}

/// Laying the same arrangement always gives the same board.
pub proof fn law_layout_determined(sc: ScenarioView, shuffled: Seq<Terrain>, b1: BoardView, b2: BoardView)
    requires
        sc.laid(shuffled, b1),
        sc.laid(shuffled, b2),
    ensures
        b1 == b2,
{
    assert(b1.tiles =~= b2.tiles);
    assert(b1.buildings =~= b2.buildings);
    assert(b1.roads =~= b2.roads);
    let r1 = b1.robber.0 as int;
    let r2 = b2.robber.0 as int;
    if r1 < r2 {
        assert(shuffled[r1] != Terrain::Desert);
    } else if r2 < r1 {
        assert(shuffled[r2] != Terrain::Desert);
    }
    assert(b1.robber == b2.robber);
}

proof fn lemma_count_bounds(s: Seq<Terrain>, t: Terrain, m: int, n: int)
    requires
        0 <= m <= n,
    ensures
        0 <= count_of(s, t, m) <= count_of(s, t, n),
        count_of(s, t, n) - count_of(s, t, m) <= n - m,
    decreases n,
{
    if n > m {
        lemma_count_bounds(s, t, m, n - 1);
    } else if m > 0 {
        lemma_count_bounds(s, t, 0, m - 1);
    }
}

/// A board variant: the topology, the terrains and the number tokens.
pub struct Scenario {
    topology: Topology,
    terrain_bag: Vec<Terrain>,
    token_sequence: Vec<NumberToken>,
}

impl View for Scenario {
    type V = ScenarioView;

    closed spec fn view(&self) -> ScenarioView {
        ScenarioView {
            topology: self.topology@,
            terrains: self.terrain_bag@,
            tokens: self.token_sequence@,
        }
    }
}

fn push_tokens(values: &[u8]) -> (tokens: Vec<NumberToken>)
    requires
        forall|i: int| 0 <= i < values@.len() ==> crate::board::tile::valid_token(#[trigger] values@[i]),
    ensures
        tokens@.len() == values@.len(),
        forall|i: int| 0 <= i < values@.len() ==> (#[trigger] tokens@[i])@ == values@[i],
{
    let mut tokens: Vec<NumberToken> = Vec::new();
    let mut i: usize = 0;
    while i < values.len()
        invariant
            0 <= i <= values@.len(),
            forall|k: int| 0 <= k < values@.len() ==> crate::board::tile::valid_token(#[trigger] values@[k]),
            tokens@.len() == i,
            forall|k: int| 0 <= k < i ==> (#[trigger] tokens@[k])@ == values@[k],
        decreases values@.len() - i,
    {
        tokens.push(NumberToken::of(values[i]));
        i = i + 1;
    }
    tokens
}

impl Scenario {
    /// Every scenario can be laid out.
    #[verifier::type_invariant]
    pub open spec fn inv(self) -> bool {
        self@.wf()
    }

    /// The standard board: the hexagon of radius 2 numbered as a spiral from
    /// the outside in, its nineteen terrains, and the eighteen tokens laid
    /// in that spiral.
    pub fn standard() -> (s: Scenario)
        ensures
            s@.topology.built_from(spiral_of(2)),
            s@.terrains == seq![
                Terrain::Forest,
                Terrain::Fields,
                Terrain::Forest,
                Terrain::Mountain,
                Terrain::Pasture,
                Terrain::Forest,
                Terrain::Pasture,
                Terrain::Forest,
                Terrain::Hills,
                Terrain::Fields,
                Terrain::Hills,
                Terrain::Fields,
                Terrain::Hills,
                Terrain::Mountain,
                Terrain::Fields,
                Terrain::Mountain,
                Terrain::Pasture,
                Terrain::Pasture,
                Terrain::Desert,
            ],
            s@.tokens.map_values(|t: NumberToken| t@) == seq![
                5u8, 2, 6, 3, 8, 10, 9, 12, 11, 4, 8, 10, 9, 4, 5, 6, 3, 11,
            ],
    {
        let hexes = Topology::spiral(2);
        proof {
            reveal_with_fuel(spiral_of, 3);
            assert(hexes@.len() == 19);
            assert forall|i: int| 0 <= i < hexes@.len() implies crate::geometry::hex::hex_fits(
                #[trigger] hexes@[i],
            ) by {
                assert(spiral_of(2) == crate::geometry::topology::ring(2) + (
                crate::geometry::topology::ring(1) + seq![Hex { q: 0, r: 0 }]));
                if i < 12 {
                    assert(hexes@[i] == crate::geometry::topology::ring(2)[i]);
                } else if i < 18 {
                    assert(hexes@[i] == crate::geometry::topology::ring(1)[i - 12]);
                }
            }
        }
        let topology = Topology::from_hexes(hexes.as_slice());
        let terrain_bag: Vec<Terrain> = vec![
            Terrain::Forest,
            Terrain::Fields,
            Terrain::Forest,
            Terrain::Mountain,
            Terrain::Pasture,
            Terrain::Forest,
            Terrain::Pasture,
            Terrain::Forest,
            Terrain::Hills,
            Terrain::Fields,
            Terrain::Hills,
            Terrain::Fields,
            Terrain::Hills,
            Terrain::Mountain,
            Terrain::Fields,
            Terrain::Mountain,
            Terrain::Pasture,
            Terrain::Pasture,
            Terrain::Desert,
        ];
        let values: [u8; 18] = [5, 2, 6, 3, 8, 10, 9, 12, 11, 4, 8, 10, 9, 4, 5, 6, 3, 11];
        let token_sequence = push_tokens(values.as_slice());
        proof {
            reveal_with_fuel(count_of, 20);
            assert(token_sequence@.map_values(|t: NumberToken| t@) =~= values@);
        }
        Scenario { topology, terrain_bag, token_sequence }
    }

    /// The three-tile board: a forest numbered 6, hills numbered 8 and a desert.
    pub fn test_scenario() -> (s: Scenario)
        ensures
            s@.topology.built_from(
                seq![Hex { q: 0, r: 0 }, Hex { q: 1, r: 0 }, Hex { q: 1, r: -1i8 }],
            ),
            s@.terrains == seq![Terrain::Forest, Terrain::Hills, Terrain::Desert],
            s@.tokens.map_values(|t: NumberToken| t@) == seq![6u8, 8],
    {
        let topology = Topology::test_topology();
        let terrain_bag: Vec<Terrain> = vec![Terrain::Forest, Terrain::Hills, Terrain::Desert];
        let values: [u8; 2] = [6, 8];
        let token_sequence = push_tokens(values.as_slice());
        proof {
            reveal_with_fuel(count_of, 4);
            assert(token_sequence@.map_values(|t: NumberToken| t@) =~= values@);
        }
        Scenario { topology, terrain_bag, token_sequence }
    }

    pub fn terrains(&self) -> (r: &[Terrain])
        ensures
            r@ == self@.terrains,
    {
        self.terrain_bag.as_slice()
    }

    pub fn token_sequence(&self) -> (r: &[NumberToken])
        ensures
            r@ == self@.tokens,
    {
        self.token_sequence.as_slice()
    }

    pub fn topology(&self) -> (t: &Topology)
        ensures
            t@ == self@.topology,
    {
        &self.topology
    }

    /// How many times each terrain occurs, by position in `Terrain::ALL`.
    fn occ_terrains(terrains: &[Terrain]) -> (counts: [usize; 6])
        ensures
            forall|t: Terrain| #[trigger] counts@[terrain_slot(t)] == count_of(
                terrains@,
                t,
                terrains@.len() as int,
            ),
    {
        let mut counts: [usize; 6] = [0, 0, 0, 0, 0, 0];
        let mut i: usize = 0;
        while i < terrains.len()
            invariant
                0 <= i <= terrains@.len(),
                forall|t: Terrain| #[trigger] counts@[terrain_slot(t)] == count_of(terrains@, t, i as int),
                forall|k: int| 0 <= k < 6 ==> #[trigger] counts@[k] <= i,
            decreases terrains@.len() - i,
        {
            let slot = terrains[i].index();
            counts[slot] = counts[slot] + 1;
            i = i + 1;
            proof {
                assert forall|t: Terrain| #[trigger] counts@[terrain_slot(t)] == count_of(
                    terrains@,
                    t,
                    i as int,
                ) by {}
            }
        }
        counts
    }

    /// Lays the terrains in the given order: tokens follow the sequence,
    /// deserts get none, and the robber starts on the first desert.
    pub fn layout(&self, shuffled: &[Terrain]) -> (r: Result<Board, InvalidBoard>)
        ensures
            shuffled@.len() != self@.terrains.len() ==> r == Err::<Board, InvalidBoard>(
                InvalidBoard::WrongTileCount {
                    expected: self@.terrains.len() as usize,
                    got: shuffled@.len() as usize,
                },
            ),
            shuffled@.len() == self@.terrains.len() && !same_distribution(shuffled@, self@.terrains)
                ==> r == Err::<Board, InvalidBoard>(InvalidBoard::WrongDistribution),
            r is Ok <==> shuffled@.len() == self@.terrains.len() && same_distribution(
                shuffled@,
                self@.terrains,
            ),
            r matches Ok(b) ==> self@.laid(shuffled@, b@),
    {
        proof {
            use_type_invariant(self);
        }
        if shuffled.len() != self.terrain_bag.len() {
            return Err(
                InvalidBoard::WrongTileCount { expected: self.terrain_bag.len(), got: shuffled.len() },
            );
        }
        let occ_shuffled = Scenario::occ_terrains(shuffled);
        let occ_bag = Scenario::occ_terrains(self.terrain_bag.as_slice());
        let mut k: usize = 0;
        while k < 6
            invariant
                0 <= k <= 6,
                shuffled@.len() == self@.terrains.len(),
                forall|t: Terrain| #[trigger] occ_shuffled@[terrain_slot(t)] == count_of(
                    shuffled@,
                    t,
                    shuffled@.len() as int,
                ),
                forall|t: Terrain| #[trigger] occ_bag@[terrain_slot(t)] == count_of(
                    self@.terrains,
                    t,
                    self@.terrains.len() as int,
                ),
                self.terrain_bag@ == self@.terrains,
                forall|j: int| 0 <= j < k ==> occ_shuffled@[j] == occ_bag@[j],
            decreases 6 - k,
        {
            if occ_shuffled[k] != occ_bag[k] {
                proof {
                    let t = if k == 0 {
                        Terrain::Desert
                    } else if k == 1 {
                        Terrain::Forest
                    } else if k == 2 {
                        Terrain::Mountain
                    } else if k == 3 {
                        Terrain::Hills
                    } else if k == 4 {
                        Terrain::Pasture
                    } else {
                        Terrain::Fields
                    };
                    assert(occ_shuffled@[terrain_slot(t)] != occ_bag@[terrain_slot(t)]);
                }
                return Err(InvalidBoard::WrongDistribution);
            }
            k = k + 1;
        }
        proof {
            assert forall|t: Terrain| count_of(shuffled@, t, shuffled@.len() as int) == count_of(
                self@.terrains,
                t,
                self@.terrains.len() as int,
            ) by {
                assert(occ_shuffled@[terrain_slot(t)] == occ_bag@[terrain_slot(t)]);
            }
        }
        let ghost s = shuffled@;
        let ghost n = shuffled@.len() as int;
        let mut tiles: Vec<Tile> = Vec::new();
        let mut robber: Option<TileId> = None;
        let mut used: usize = 0;
        let mut i: usize = 0;
        while i < shuffled.len()
            invariant
                s == shuffled@,
                n == s.len(),
                self@.wf(),
                n == self@.terrains.len(),
                same_distribution(s, self@.terrains),
                self.token_sequence@ == self@.tokens,
                0 <= i <= n,
                used == tokens_before(s, i as int),
                tiles@.len() == i,
                forall|j: int| 0 <= j < i ==> #[trigger] tiles@[j] == laid_tile(s, self@.tokens, j),
                robber is None <==> count_of(s, Terrain::Desert, i as int) == 0,
                robber matches Some(r) ==> first_desert_at(s, r.0 as int),
            decreases n - i,
        {
            let terrain = shuffled[i];
            proof {
                lemma_count_bounds(s, Terrain::Desert, i as int, n);
                lemma_count_bounds(s, Terrain::Desert, i + 1, n);
                lemma_count_bounds(s, Terrain::Desert, 0, i as int);
            }
            let token = match terrain {
                Terrain::Desert => {
                    if robber.is_none() {
                        robber = Some(TileId(i));
                        proof {
                            assert forall|k: int| 0 <= k < i implies s[k] != Terrain::Desert by {
                                if s[k] == Terrain::Desert {
                                    lemma_count_bounds(s, Terrain::Desert, k + 1, i as int);
                                    lemma_count_bounds(s, Terrain::Desert, 0, k);
                                }
                            }
                        }
                    }
                    None
                },
                _ => {
                    assert(used < self@.tokens.len());
                    let t = self.token_sequence[used];
                    used = used + 1;
                    Some(t)
                },
            };
            let tile = match terrain.into_tile(token) {
                Ok(tile) => tile,
                Err(e) => {
                    assert(false);
                    return Err(InvalidBoard::TerrainToken(e));
                },
            };
            tiles.push(tile);
            i = i + 1;
        }
        let robber = match robber {
            Some(r) => r,
            None => {
                assert(count_of(self@.terrains, Terrain::Desert, n) >= 1);
                return Err(InvalidBoard::NoDesert);
            },
        };
        let topology = self.topology.clone();
        match Board::new(topology, tiles, robber) {
            Ok(b) => Ok(b),
            Err(e) => {
                assert(false);
                Err(e)
            },
        }
    }
}

} // verus!
