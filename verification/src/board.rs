use vstd::prelude::*;

pub mod building;
pub mod production;
pub mod invariants;
pub mod tile;

pub use building::{Building, BuildingKind};
pub use production::{Gain, Production};
pub use tile::{InvalidNumberToken, NumberToken, Terrain, TerrainTokenMismatch, Tile};

use crate::board::building::kind_amount;
use crate::board::production::{distinct_players, gains_of, lists, sorted_players};
use crate::resource::counts::ResourceCounts;
use crate::board::tile::{terrain_resource, tile_number, tile_terrain};
use crate::game::GameStatus;
use crate::geometry::topology::{
    connected, copy_vec, edges_at, neighbors, other_end, touches, TopologyView,
};
use crate::geometry::{EdgeId, TileId, Topology, VertexId};
use crate::player::PlayerId;
use crate::resource::{resource_slot, Resource};
use crate::roll::{roll_total, Roll};
use crate::text::{decimal, push_decimal, with_number};

verus! {

/// Why a board could not be laid out.
#[derive(Debug, Clone, PartialEq, Eq, Structural)]
pub enum InvalidBoard {
    WrongTileCount { expected: usize, got: usize },
    WrongDistribution,
    NoDesert,
    TerrainToken(TerrainTokenMismatch),
    InvalidRobber,
}

/// Why a move on the board was refused.
#[derive(Debug, Clone, PartialEq, Eq, Structural)]
pub enum InvalidAction {
    UnexistingTile(TileId),
    UnexistingVertex(VertexId),
    UnexistingEdge(EdgeId),
    UnexistingBuilding(VertexId),
    RobberNotOnDesert,
    RobberMustMove,
    IsNotSettlement(VertexId),
    VertexOccupied(VertexId),
    TooCloseToBuilding(VertexId),
    EdgeOccupied(EdgeId),
    NotConnected,
    RoadMustStartFromNewSettlement,
    NotYourSettlement(VertexId),
    InvalidGameStatus,
}

impl InvalidBoard {
    /// The text that explains why the board was refused.
    pub open spec fn text(self) -> Seq<char> {
        match self {
            InvalidBoard::WrongTileCount { expected, got } => "nombre de tuiles invalide : attendu "@
                + decimal(expected as nat) + ", obtenu "@ + decimal(got as nat),
            InvalidBoard::WrongDistribution => "la répartition ne correspond pas au scénario"@,
            InvalidBoard::NoDesert => "aucun désert dans la répartition"@,
            InvalidBoard::TerrainToken(e) => e.text(),
            InvalidBoard::InvalidRobber => "Position du voleur invalide"@,
        }
    }

    /// Explains to a player why the board was refused.
    pub fn message(&self) -> (r: String)
        ensures
            r@ == self.text(),
    {
        match self {
            InvalidBoard::WrongTileCount { expected, got } => {
                let mut s = with_number("nombre de tuiles invalide : attendu ", *expected, ", obtenu ");
                push_decimal(&mut s, *got);
                s
            },
            InvalidBoard::WrongDistribution => String::from_str(
                "la répartition ne correspond pas au scénario",
            ),
            InvalidBoard::NoDesert => String::from_str("aucun désert dans la répartition"),
            InvalidBoard::TerrainToken(e) => e.message(),
            InvalidBoard::InvalidRobber => String::from_str("Position du voleur invalide"),
        }
    }
}

impl From<TerrainTokenMismatch> for InvalidBoard {
    /// A tile that could not be made makes the board invalid.
    fn from(e: TerrainTokenMismatch) -> (r: InvalidBoard) {
        InvalidBoard::TerrainToken(e)
    }
}

impl vstd::std_specs::convert::FromSpecImpl<TerrainTokenMismatch> for InvalidBoard {
    open spec fn obeys_from_spec() -> bool {
        true
    }

    open spec fn from_spec(e: TerrainTokenMismatch) -> InvalidBoard {
        InvalidBoard::TerrainToken(e)
    }
}

impl InvalidAction {
    /// The text that explains why the move was refused.
    pub open spec fn text(self) -> Seq<char> {
        match self {
            InvalidAction::UnexistingTile(t) => "La tuile "@ + decimal(t.0 as nat) + " n'existe pas"@,
            InvalidAction::UnexistingVertex(v) => "Le vertex "@ + decimal(v.0 as nat) + " n'existe pas"@,
            InvalidAction::UnexistingEdge(e) => "L'arête "@ + decimal(e.0 as nat) + " n'existe pas"@,
            InvalidAction::UnexistingBuilding(v) => "Aucune construction sur l'emplacement "@ + decimal(v.0 as nat) + ""@,
            InvalidAction::RobberNotOnDesert => "Le voleur ne peut pas être déplacé sur un désert"@,
            InvalidAction::RobberMustMove => "Le voleur doit quitter sa tuile"@,
            InvalidAction::IsNotSettlement(v) => "ce n'est pas une colonie sur l'emplacement "@ + decimal(v.0 as nat) + ""@,
            InvalidAction::VertexOccupied(v) => "Le noeud "@ + decimal(v.0 as nat) + " est occupé"@,
            InvalidAction::TooCloseToBuilding(v) => "Le noeud est trop pproche du noeud "@ + decimal(v.0 as nat) + " où il y a déjà une construction"@,
            InvalidAction::EdgeOccupied(e) => "l'arête "@ + decimal(e.0 as nat) + " est déjà occupée"@,
            InvalidAction::NotConnected => "pas connecté aux autres constructions du joueur"@,
            InvalidAction::RoadMustStartFromNewSettlement => "la route doit commencer par une nouvelle colonie"@,
            InvalidAction::NotYourSettlement(v) => "ce n'est pas votre construction sur le noeud "@ + decimal(v.0 as nat) + ""@,
            InvalidAction::InvalidGameStatus => "Statut du jeu incompatible avec cette action"@,
        }
    }

    /// Explains to a player why the move was refused.
    pub fn message(&self) -> (r: String)
        ensures
            r@ == self.text(),
    {
        match self {
            InvalidAction::UnexistingTile(t) => with_number("La tuile ", t.0, " n'existe pas"),
            InvalidAction::UnexistingVertex(v) => with_number("Le vertex ", v.0, " n'existe pas"),
            InvalidAction::UnexistingEdge(e) => with_number("L'arête ", e.0, " n'existe pas"),
            InvalidAction::UnexistingBuilding(v) => with_number("Aucune construction sur l'emplacement ", v.0, ""),
            InvalidAction::RobberNotOnDesert => String::from_str("Le voleur ne peut pas être déplacé sur un désert"),
            InvalidAction::RobberMustMove => String::from_str("Le voleur doit quitter sa tuile"),
            InvalidAction::IsNotSettlement(v) => with_number("ce n'est pas une colonie sur l'emplacement ", v.0, ""),
            InvalidAction::VertexOccupied(v) => with_number("Le noeud ", v.0, " est occupé"),
            InvalidAction::TooCloseToBuilding(v) => with_number("Le noeud est trop pproche du noeud ", v.0, " où il y a déjà une construction"),
            InvalidAction::EdgeOccupied(e) => with_number("l'arête ", e.0, " est déjà occupée"),
            InvalidAction::NotConnected => String::from_str("pas connecté aux autres constructions du joueur"),
            InvalidAction::RoadMustStartFromNewSettlement => String::from_str("la route doit commencer par une nouvelle colonie"),
            InvalidAction::NotYourSettlement(v) => with_number("ce n'est pas votre construction sur le noeud ", v.0, ""),
            InvalidAction::InvalidGameStatus => String::from_str("Statut du jeu incompatible avec cette action"),
        }
    }
}

/// What changes on a board, over its fixed topology.
pub struct BoardView {
    pub topology: TopologyView,
    pub tiles: Seq<Tile>,
    pub buildings: Seq<Option<Building>>,
    pub roads: Seq<Option<PlayerId>>,
    pub robber: TileId,
}

impl BoardView {
    /// One tile per hexagon, one building slot per vertex, one road slot
    /// per edge, and the robber on a tile.
    pub open spec fn wf(self) -> bool {
        &&& self.topology.wf()
        &&& self.tiles.len() == self.topology.hexes.len()
        &&& self.buildings.len() == self.topology.vertex_count
        &&& self.roads.len() == self.topology.edge_count
        &&& self.robber.0 < self.tiles.len()
    }
}

/// A settlement is being placed during the opening rounds.
pub open spec fn settlement_placement(s: GameStatus) -> bool {
    s is FirstPlacementSettlement || s is SecondPlacementSettlement
}

/// A road is being placed during the opening rounds.
pub open spec fn road_placement(s: GameStatus) -> bool {
    s is FirstPlacementRoad || s is SecondPlacementRoad
}

/// `p` owns the building on `v`.
pub open spec fn owned_by(b: BoardView, v: VertexId, p: PlayerId) -> bool {
    b.buildings[v.0 as int] matches Some(bld) && bld.owner == p
}

/// `p` owns at least one building on the board.
pub open spec fn has_building(b: BoardView, p: PlayerId) -> bool {
    exists|v: int| 0 <= v < b.buildings.len() && #[trigger] owned_by(b, VertexId(v as usize), p)
}

/// One of `p`'s roads ends at `v`.
pub open spec fn road_at(b: BoardView, v: VertexId, p: PlayerId) -> bool {
    exists|e: int|
        0 <= e < b.topology.edge_count && touches(b.topology, e, v) && #[trigger] b.roads[e] == Some(p)
}

/// `vs[i]` is the first vertex of `vs` that holds a building.
pub open spec fn first_occupied_at(b: BoardView, vs: Seq<VertexId>, i: int) -> bool {
    &&& 0 <= i < vs.len()
    &&& b.buildings[vs[i].0 as int] is Some
    &&& forall|k: int| 0 <= k < i ==> b.buildings[vs[k].0 as int] is None
}

/// The position of the first vertex of `vs` that holds a building.
pub open spec fn first_occupied(b: BoardView, vs: Seq<VertexId>) -> int {
    choose|i: int| first_occupied_at(b, vs, i)
}

/// Whether `p` may build a settlement on `v`: the vertex must exist and be
/// free, no neighbouring vertex may hold a building (the first such one is
/// named), and outside the opening rounds one of `p`'s roads must reach it.
pub open spec fn building_check(b: BoardView, s: GameStatus, v: VertexId, p: PlayerId) -> Result<
    (),
    InvalidAction,
> {
    let ns = neighbors(b.topology, v);
    if v.0 >= b.topology.vertex_count {
        Err(InvalidAction::UnexistingVertex(v))
    } else if b.buildings[v.0 as int] is Some {
        Err(InvalidAction::VertexOccupied(v))
    } else if exists|i: int| first_occupied_at(b, ns, i) {
        Err(InvalidAction::TooCloseToBuilding(ns[first_occupied(b, ns)]))
    } else if settlement_placement(s) || road_at(b, v, p) {
        Ok(())
    } else {
        Err(InvalidAction::NotConnected)
    }
}

/// Whether `p` may build a road on `e`: the edge must exist and be free;
/// in the opening rounds it must start from one of `p`'s buildings that has
/// no road of `p` yet; in play it must extend one of `p`'s roads.
pub open spec fn road_check(b: BoardView, s: GameStatus, e: EdgeId, p: PlayerId) -> Result<
    (),
    InvalidAction,
> {
    let ends = b.topology.edges_endpoints[e.0 as int];
    if e.0 >= b.topology.edge_count {
        Err(InvalidAction::UnexistingEdge(e))
    } else if b.roads[e.0 as int] is Some {
        Err(InvalidAction::EdgeOccupied(e))
    } else if road_placement(s) {
        if (owned_by(b, ends[0], p) && !road_at(b, ends[0], p)) || (owned_by(b, ends[1], p)
            && !road_at(b, ends[1], p)) {
            Ok(())
        } else {
            Err(InvalidAction::RoadMustStartFromNewSettlement)
        }
    } else if s is PlayingActions {
        if road_at(b, ends[0], p) || road_at(b, ends[1], p) {
            Ok(())
        } else {
            Err(InvalidAction::NotConnected)
        }
    } else {
        Err(InvalidAction::InvalidGameStatus)
    }
}

/// Whether `p` may turn the building on `v` into a city.
pub open spec fn upgrade_check(b: BoardView, v: VertexId, p: PlayerId) -> Result<(), InvalidAction> {
    if v.0 >= b.topology.vertex_count {
        Err(InvalidAction::UnexistingVertex(v))
    } else {
        match b.buildings[v.0 as int] {
            None => Err(InvalidAction::UnexistingBuilding(v)),
            Some(bld) => if bld.kind is City {
                Err(InvalidAction::IsNotSettlement(v))
            } else if bld.owner != p {
                Err(InvalidAction::NotYourSettlement(v))
            } else {
                Ok(())
            },
        }
    }
}

/// Whether the robber may move to `t`: an existing tile, not a desert, and
/// another one than where it stands.
pub open spec fn robber_check(b: BoardView, t: TileId) -> Result<(), InvalidAction> {
    if t.0 >= b.tiles.len() {
        Err(InvalidAction::UnexistingTile(t))
    } else if b.tiles[t.0 as int] is Desert {
        Err(InvalidAction::RobberNotOnDesert)
    } else if t == b.robber {
        Err(InvalidAction::RobberMustMove)
    } else {
        Ok(())
    }
}

/// `v` is one of the six corners of tile `t`.
pub open spec fn corner_of(b: BoardView, t: int, v: VertexId) -> bool {
    exists|c: int| 0 <= c < 6 && b.topology.tile_vertices[t][c] == v
}

/// What the first `n` tiles around `v` produce, in tile order.
pub open spec fn around(b: BoardView, v: VertexId, n: int) -> Seq<Resource>
    decreases n,
{
    if n <= 0 {
        Seq::empty()
    } else if corner_of(b, n - 1, v) && terrain_resource(tile_terrain(b.tiles[n - 1])) is Some {
        around(b, v, n - 1).push(terrain_resource(tile_terrain(b.tiles[n - 1]))->0)
    } else {
        around(b, v, n - 1)
    }
}

/// Tile `t` produces on `roll`: it carries that number and the robber is elsewhere.
pub open spec fn tile_yields(b: BoardView, roll: int, t: int) -> bool {
    &&& t != b.robber.0
    &&& tile_number(b.tiles[t]) matches Some(n) && n@ == roll
    &&& terrain_resource(tile_terrain(b.tiles[t])) is Some
}

/// Cards `p` earns from corner `c` of tile `t` when the tile produces.
pub open spec fn corner_share(b: BoardView, p: PlayerId, t: int, c: int) -> int {
    match b.buildings[b.topology.tile_vertices[t][c].0 as int] {
        Some(bld) => if bld.owner == p {
            kind_amount(bld.kind) as int
        } else {
            0
        },
        None => 0,
    }
}

/// Cards `p` earns from the first `c` corners of tile `t`.
pub open spec fn corners_share(b: BoardView, p: PlayerId, t: int, c: int) -> int
    decreases c,
{
    if c <= 0 {
        0
    } else {
        corners_share(b, p, t, c - 1) + corner_share(b, p, t, c - 1)
    }
}

/// Cards of slot `k` that `p` earns on `roll` from the first `n` tiles.
pub open spec fn produced(b: BoardView, roll: int, p: PlayerId, k: int, n: int) -> int
    decreases n,
{
    if n <= 0 {
        0
    } else if tile_yields(b, roll, n - 1) && resource_slot(
        terrain_resource(tile_terrain(b.tiles[n - 1]))->0,
    ) == k {
        produced(b, roll, p, k, n - 1) + corners_share(b, p, n - 1, 6)
    } else {
        produced(b, roll, p, k, n - 1)
    }
}

/// Every count a roll produces fits in a `u8`.
pub open spec fn production_fits(b: BoardView, roll: int) -> bool {
    forall|p: PlayerId, k: int|
        0 <= k < 5 ==> #[trigger] produced(b, roll, p, k, b.tiles.len() as int) <= u8::MAX
}

/// What `p` receives on `roll`, slot by slot.
pub open spec fn production_for(b: BoardView, roll: int, p: PlayerId) -> Seq<u8> {
    Seq::new(5, |k: int| produced(b, roll, p, k, b.tiles.len() as int) as u8)
}

/// The state of the board: its topology, tiles, buildings, roads and robber.
#[derive(Debug, PartialEq)]
pub struct Board {
    topology: Topology,
    tiles: Vec<Tile>,
    buildings: Vec<Option<Building>>,
    roads: Vec<Option<PlayerId>>,
    robber: TileId,
}

impl View for Board {
    type V = BoardView;

    closed spec fn view(&self) -> BoardView {
        BoardView {
            topology: self.topology@,
            tiles: self.tiles@,
            buildings: self.buildings@,
            roads: self.roads@,
            robber: self.robber,
        }
    }
}

/// The vertices next to `v` are vertices of the topology.
pub proof fn lemma_neighbors_exist(t: TopologyView, v: VertexId)
    requires
        t.wf(),
    ensures
        forall|k: int| 0 <= k < neighbors(t, v).len() ==> (#[trigger] neighbors(t, v)[k]).0 < t.vertex_count,
        forall|k: int| 0 <= k < connected(t, v).len() ==> (#[trigger] connected(t, v)[k]).0 < t.edge_count,
{
    crate::geometry::topology::lemma_edges_at_bounded(t, v, t.edge_count as int);
    assert forall|k: int| 0 <= k < neighbors(t, v).len() implies (#[trigger] neighbors(t, v)[k]).0
        < t.vertex_count by {
        let e = connected(t, v)[k];
        assert(e.0 < t.edge_count);
        assert(t.edges_endpoints[e.0 as int][0].0 < t.vertex_count);
        assert(t.edges_endpoints[e.0 as int][1].0 < t.vertex_count);
    }
}

proof fn lemma_corners_mono(b: BoardView, p: PlayerId, t: int, c1: int, c2: int)
    requires
        0 <= c1 <= c2,
    ensures
        0 <= corners_share(b, p, t, c1) <= corners_share(b, p, t, c2),
    decreases c2,
{
    if c2 > c1 {
        lemma_corners_mono(b, p, t, c1, c2 - 1);
        assert(corner_share(b, p, t, c2 - 1) >= 0);
    } else if c1 > 0 {
        lemma_corners_mono(b, p, t, 0, c1 - 1);
        assert(corner_share(b, p, t, c1 - 1) >= 0);
    }
}

proof fn lemma_produced_mono(b: BoardView, roll: int, p: PlayerId, k: int, m: int, n: int)
    requires
        0 <= m <= n,
    ensures
        0 <= produced(b, roll, p, k, m) <= produced(b, roll, p, k, n),
    decreases n,
{
    if n > m {
        lemma_produced_mono(b, roll, p, k, m, n - 1);
        lemma_corners_mono(b, p, n - 1, 0, 6);
    } else if m > 0 {
        lemma_produced_mono(b, roll, p, k, 0, m - 1);
        lemma_corners_mono(b, p, m - 1, 0, 6);
    }
}

/// Adding corner `c` of a producing tile stays within what the whole roll gives.
proof fn lemma_share_bounds(b: BoardView, roll: int, p: PlayerId, t: int, c: int, slot: int)
    requires
        0 <= t < b.tiles.len(),
        0 <= c < 6,
        tile_yields(b, roll, t),
        slot == resource_slot(terrain_resource(tile_terrain(b.tiles[t]))->0),
    ensures
        produced(b, roll, p, slot, t) + corners_share(b, p, t, c) + corner_share(b, p, t, c)
            <= produced(b, roll, p, slot, t + 1),
{
    lemma_corners_mono(b, p, t, c + 1, 6);
}

/// A player who earns something on a roll owns a building on the board.
pub proof fn lemma_produced_owner(b: BoardView, roll: int, p: PlayerId, k: int, n: int)
    requires
        b.wf(),
        0 <= n <= b.tiles.len(),
        produced(b, roll, p, k, n) > 0,
    ensures
        has_building(b, p),
    decreases n,
{
    if n > 0 {
        if produced(b, roll, p, k, n - 1) > 0 {
            lemma_produced_owner(b, roll, p, k, n - 1);
        } else {
            lemma_corner_owner(b, p, n - 1, 6);
        }
    }
}

proof fn lemma_corner_owner(b: BoardView, p: PlayerId, t: int, c: int)
    requires
        b.wf(),
        0 <= t < b.tiles.len(),
        0 <= c <= 6,
        corners_share(b, p, t, c) > 0,
    ensures
        has_building(b, p),
    decreases c,
{
    if c > 0 {
        if corners_share(b, p, t, c - 1) > 0 {
            lemma_corner_owner(b, p, t, c - 1);
        } else {
            let v = b.topology.tile_vertices[t][c - 1].0 as int;
            assert(v < b.buildings.len());
            assert(owned_by(b, VertexId(v as usize), p));
        }
    }
}

impl Board {
    /// The board keeps one tile per hexagon, one slot per vertex and per edge,
    /// and the robber on a tile.
    #[verifier::type_invariant]
    closed spec fn inv(self) -> bool {
        self@.wf()
    }

    /// A board with no building and no road; the robber must stand on a desert.
    pub fn new(topology: Topology, tiles: Vec<Tile>, robber: TileId) -> (r: Result<Board, InvalidBoard>)
        ensures
            tiles@.len() != topology@.hexes.len() ==> r == Err::<Board, InvalidBoard>(
                InvalidBoard::WrongTileCount {
                    expected: topology@.hexes.len() as usize,
                    got: tiles@.len() as usize,
                },
            ),
            tiles@.len() == topology@.hexes.len() && (robber.0 >= tiles@.len()
                || !(tiles@[robber.0 as int] is Desert)) ==> r == Err::<Board, InvalidBoard>(
                InvalidBoard::InvalidRobber,
            ),
            r is Ok <==> tiles@.len() == topology@.hexes.len() && robber.0 < tiles@.len()
                && tiles@[robber.0 as int] is Desert,
            r matches Ok(b) ==> b@.wf() && b@.topology == topology@ && b@.tiles == tiles@
                && b@.robber == robber && (forall|i: int|
                0 <= i < b@.buildings.len() ==> b@.buildings[i] is None) && (forall|i: int|
                0 <= i < b@.roads.len() ==> b@.roads[i] is None),
    {
        proof {
            use_type_invariant(&topology);
        }
        let expected = topology.hexes().len();
        if tiles.len() != expected {
            return Err(InvalidBoard::WrongTileCount { expected, got: tiles.len() });
        }
        if robber.0 >= tiles.len() {
            return Err(InvalidBoard::InvalidRobber);
        }
        match tiles[robber.0] {
            Tile::Desert => {},
            _ => {
                return Err(InvalidBoard::InvalidRobber);
            },
        }
        let mut buildings: Vec<Option<Building>> = Vec::new();
        let mut i: usize = 0;
        while i < topology.vertex_count()
            invariant
                0 <= i <= topology@.vertex_count,
                buildings@.len() == i,
                forall|k: int| 0 <= k < i ==> buildings@[k] is None,
            decreases topology@.vertex_count - i,
        {
            buildings.push(None);
            i = i + 1;
        }
        let mut roads: Vec<Option<PlayerId>> = Vec::new();
        let mut i: usize = 0;
        while i < topology.edge_count()
            invariant
                0 <= i <= topology@.edge_count,
                roads@.len() == i,
                forall|k: int| 0 <= k < i ==> roads@[k] is None,
            decreases topology@.edge_count - i,
        {
            roads.push(None);
            i = i + 1;
        }
        Ok(Board { topology, tiles, buildings, roads, robber })
    }

    pub fn robber(&self) -> (t: TileId)
        ensures
            t == self@.robber,
    {
        proof {
            use_type_invariant(&*self);
        }
        self.robber
    }

    pub fn tiles(&self) -> (r: &[Tile])
        ensures
            r@ == self@.tiles,
    {
        proof {
            use_type_invariant(&*self);
        }
        self.tiles.as_slice()
    }

    pub fn topology(&self) -> (t: &Topology)
        ensures
            t@ == self@.topology,
    {
        proof {
            use_type_invariant(&*self);
        }
        &self.topology
    }

    pub fn buildings(&self) -> (r: &[Option<Building>])
        ensures
            r@ == self@.buildings,
    {
        proof {
            use_type_invariant(&*self);
        }
        self.buildings.as_slice()
    }

    pub fn roads(&self) -> (r: &[Option<PlayerId>])
        ensures
            r@ == self@.roads,
    {
        proof {
            use_type_invariant(&*self);
        }
        self.roads.as_slice()
    }

    /// Whether one of `player`'s roads ends at `vertex`.
    fn road_at(&self, vertex: VertexId, player: PlayerId) -> (r: bool)
        ensures
            r == road_at(self@, vertex, player),
    {
        proof {
            use_type_invariant(&*self);
        }
        let ends = self.topology.edges_endpoints();
        let mut e: usize = 0;
        while e < self.roads.len()
            invariant
                self@.wf(),
                ends@ == self@.topology.edges_endpoints,
                0 <= e <= self@.roads.len(),
                forall|k: int|
                    0 <= k < e ==> !(touches(self@.topology, k, vertex) && #[trigger] self@.roads[k]
                        == Some(player)),
            decreases self@.roads.len() - e,
        {
            let pair = ends[e];
            if pair[0] == vertex || pair[1] == vertex {
                match self.roads[e] {
                    Some(owner) => {
                        if owner == player {
                            assert(self@.roads[e as int] == Some(player));
                            return true;
                        }
                    },
                    None => {},
                }
            }
            e = e + 1;
        }
        false
    }

    /// Whether `player` owns the building on `vertex`.
    fn owns(&self, vertex: VertexId, player: PlayerId) -> (r: bool)
        requires
            vertex.0 < self@.topology.vertex_count,
        ensures
            r == owned_by(self@, vertex, player),
    {
        proof {
            use_type_invariant(&*self);
        }
        match self.buildings[vertex.0] {
            Some(b) => b.owner == player,
            None => false,
        }
    }

    /// The cards that `roll` gives, per player, in player order.
    pub fn production(&self, roll: Roll) -> (production: Production)
        requires
            production_fits(self@, roll_total(roll@)),
        ensures
            sorted_players(production@),
            forall|p: PlayerId|
                lists(production@, p) <==> exists|k: int|
                    0 <= k < 5 && #[trigger] produced(self@, roll_total(roll@), p, k, self@.tiles.len() as int) > 0,
            forall|p: PlayerId| gains_of(production@, p) == production_for(self@, roll_total(roll@), p),
    {
        proof {
            use_type_invariant(&*self);
        }
        let mut production = Production::default();
        let rv = roll.value();
        let ghost r = roll_total(roll@);
        let corners = self.topology.tile_vertices();
        let n = self.tiles.len();
        let mut t: usize = 0;
        proof {
            assert forall|p: PlayerId| gains_of(production@, p).len() == 5 by {}
        }
        while t < n
            invariant
                self@.wf(),
                corners@ == self@.topology.tile_vertices,
                n == self@.tiles.len(),
                rv == r,
                production_fits(self@, r),
                0 <= t <= n,
                distinct_players(production@),
                forall|p: PlayerId| #[trigger] gains_of(production@, p).len() == 5,
                forall|p: PlayerId|
                    lists(production@, p) <==> exists|k: int|
                        0 <= k < 5 && #[trigger] gains_of(production@, p)[k] > 0,
                forall|p: PlayerId, k: int|
                    0 <= k < 5 ==> #[trigger] gains_of(production@, p)[k] == produced(
                        self@,
                        r,
                        p,
                        k,
                        t as int,
                    ),
            decreases n - t,
        {
            let tile = self.tiles[t];
            let mut slot: usize = 5;
            if t != self.robber.0 {
                match tile.number() {
                    Some(num) => {
                        if num.value() == rv {
                            match tile.resource() {
                                Some(res) => {
                                    slot = res.index();
                                },
                                None => {},
                            }
                        }
                    },
                    None => {},
                }
            }
            proof {
                if slot < 5 {
                    assert(tile_yields(self@, r, t as int));
                } else {
                    assert(!tile_yields(self@, r, t as int));
                }
            }
            if slot < 5 {
                let vs = corners[t];
                let mut c: usize = 0;
                while c < 6
                    invariant
                        self@.wf(),
                        vs == self@.topology.tile_vertices[t as int],
                        n == self@.tiles.len(),
                        0 <= t < n,
                        slot < 5,
                        tile_yields(self@, r, t as int),
                        slot == resource_slot(terrain_resource(tile_terrain(self@.tiles[t as int]))->0),
                        production_fits(self@, r),
                        0 <= c <= 6,
                        distinct_players(production@),
                        forall|p: PlayerId| #[trigger] gains_of(production@, p).len() == 5,
                        forall|p: PlayerId|
                            lists(production@, p) <==> exists|k: int|
                                0 <= k < 5 && #[trigger] gains_of(production@, p)[k] > 0,
                        forall|p: PlayerId, k: int|
                            0 <= k < 5 ==> #[trigger] gains_of(production@, p)[k] == produced(
                                self@,
                                r,
                                p,
                                k,
                                t as int,
                            ) + (if k == slot {
                                corners_share(self@, p, t as int, c as int)
                            } else {
                                0
                            }),
                    decreases 6 - c,
                {
                    let v = vs[c];
                    assert(v.0 < self@.topology.vertex_count);
                    match self.buildings[v.0] {
                        Some(b) => {
                            let amount = b.kind.amount();
                            let mut counts: [u8; 5] = [0, 0, 0, 0, 0];
                            counts[slot] = amount;
                            let ghost before = production@;
                            proof {
                                lemma_share_bounds(self@, r, b.owner, t as int, c as int, slot as int);
                                assert(corner_share(self@, b.owner, t as int, c as int) == amount);
                                assert forall|k: int| 0 <= k < 5 implies gains_of(before, b.owner)[k]
                                    + counts@[k] <= u8::MAX by {
                                    assert(produced(self@, r, b.owner, k, n as int) <= u8::MAX);
                                    lemma_produced_mono(self@, r, b.owner, k, t + 1, n as int);
                                    lemma_produced_mono(self@, r, b.owner, k, t as int, t + 1);
                                    lemma_corners_mono(self@, b.owner, t as int, c as int, 6);
                                    if k == slot {
                                        assert(counts@[k] == amount);
                                    } else {
                                        assert(counts@[k] == 0);
                                    }
                                }
                            }
                            production.add_gain(Gain { player: b.owner, resources: ResourceCounts(counts) });
                            proof {
                                assert forall|p: PlayerId| #[trigger] gains_of(production@, p).len() == 5 by {
                                    if p != b.owner {
                                        assert(gains_of(production@, p) == gains_of(before, p));
                                    }
                                }
                                assert(gains_of(production@, b.owner)[slot as int] > 0);
                            }
                        },
                        None => {},
                    }
                    c = c + 1;
                }
            }
            t = t + 1;
        }
        production.sort();
        proof {
            assert forall|p: PlayerId| gains_of(production@, p) == production_for(self@, r, p) by {
                assert forall|k: int| 0 <= k < 5 implies gains_of(production@, p)[k] == production_for(
                    self@,
                    r,
                    p,
                )[k] by {
                    lemma_produced_mono(self@, r, p, k, 0, n as int);
                    assert(produced(self@, r, p, k, n as int) <= u8::MAX);
                }
                assert(gains_of(production@, p) =~= production_for(self@, r, p));
            }
            assert forall|p: PlayerId| lists(production@, p) <==> exists|k: int|
                0 <= k < 5 && #[trigger] produced(self@, r, p, k, n as int) > 0 by {
                if lists(production@, p) {
                    let k = choose|k: int| 0 <= k < 5 && #[trigger] gains_of(production@, p)[k] > 0;
                    assert(produced(self@, r, p, k, n as int) > 0);
                }
                if exists|k: int| 0 <= k < 5 && #[trigger] produced(self@, r, p, k, n as int) > 0 {
                    let k = choose|k: int| 0 <= k < 5 && #[trigger] produced(self@, r, p, k, n as int) > 0;
                    assert(gains_of(production@, p)[k] > 0);
                }
            }
        }
        production
    }

    /// Whether `player` may build a settlement on `vertex` in `game_status`.
    pub fn can_place_building(&self, game_status: GameStatus, vertex: VertexId, player: PlayerId) -> (r:
        Result<(), InvalidAction>)
        ensures
            r == building_check(self@, game_status, vertex, player),
    {
        proof {
            use_type_invariant(&*self);
        }
        if vertex.0 >= self.topology.vertex_count() {
            return Err(InvalidAction::UnexistingVertex(vertex));
        }
        if self.buildings[vertex.0].is_some() {
            return Err(InvalidAction::VertexOccupied(vertex));
        }
        let ns = self.topology.vertex_neighbors(vertex);
        proof {
            lemma_neighbors_exist(self@.topology, vertex);
        }
        let mut i: usize = 0;
        while i < ns.len()
            invariant
                self@.wf(),
                ns@ == neighbors(self@.topology, vertex),
                vertex.0 < self@.topology.vertex_count,
                self@.buildings[vertex.0 as int] is None,
                0 <= i <= ns@.len(),
                forall|k: int| 0 <= k < ns@.len() ==> (#[trigger] ns@[k]).0 < self@.topology.vertex_count,
                forall|k: int| 0 <= k < i ==> self@.buildings[ns@[k].0 as int] is None,
            decreases ns@.len() - i,
        {
            let n = ns[i];
            if self.buildings[n.0].is_some() {
                proof {
                    assert(first_occupied_at(self@, ns@, i as int));
                    let j = first_occupied(self@, ns@);
                    if j < i {
                        assert(self@.buildings[ns@[j].0 as int] is None);
                    } else if j > i {
                        assert(self@.buildings[ns@[i as int].0 as int] is None);
                    }
                    assert(j == i);
                    assert(ns@[j] == n);
                    assert(vertex.0 < self@.topology.vertex_count);
                    assert(self@.buildings[vertex.0 as int] is None);
                    assert(exists|i: int| first_occupied_at(self@, neighbors(self@.topology, vertex), i));
                    assert(building_check(self@, game_status, vertex, player) == Err::<(), InvalidAction>(
                        InvalidAction::TooCloseToBuilding(n)));
                }
                return Err(InvalidAction::TooCloseToBuilding(n));
            }
            i = i + 1;
        }
        proof {
            assert forall|j: int| !first_occupied_at(self@, ns@, j) by {
                if 0 <= j < ns@.len() {
                    assert(self@.buildings[ns@[j].0 as int] is None);
                }
            }
        }
        let placing = match game_status {
            GameStatus::FirstPlacementSettlement => true,
            GameStatus::SecondPlacementSettlement => true,
            _ => false,
        };
        if placing || self.road_at(vertex, player) {
            Ok(())
        } else {
            Err(InvalidAction::NotConnected)
        }
    }

    /// Whether `player` may build a road on `edge` in `game_status`.
    pub fn can_place_road(&self, game_status: GameStatus, edge: EdgeId, player: PlayerId) -> (r: Result<
        (),
        InvalidAction,
    >)
        ensures
            r == road_check(self@, game_status, edge, player),
    {
        proof {
            use_type_invariant(&*self);
        }
        if edge.0 >= self.roads.len() {
            return Err(InvalidAction::UnexistingEdge(edge));
        }
        if self.roads[edge.0].is_some() {
            return Err(InvalidAction::EdgeOccupied(edge));
        }
        let ends = self.topology.edges_endpoints()[edge.0];
        assert(ends[0].0 < self@.topology.vertex_count);
        assert(ends[1].0 < self@.topology.vertex_count);
        match game_status {
            GameStatus::FirstPlacementRoad | GameStatus::SecondPlacementRoad => {
                let fresh0 = self.owns(ends[0], player) && !self.road_at(ends[0], player);
                let fresh1 = self.owns(ends[1], player) && !self.road_at(ends[1], player);
                if fresh0 || fresh1 {
                    Ok(())
                } else {
                    Err(InvalidAction::RoadMustStartFromNewSettlement)
                }
            },
            GameStatus::PlayingActions => {
                if self.road_at(ends[0], player) || self.road_at(ends[1], player) {
                    Ok(())
                } else {
                    Err(InvalidAction::NotConnected)
                }
            },
            _ => Err(InvalidAction::InvalidGameStatus),
        }
    }

    /// Builds a road for `player` on `edge` if the rules allow it; a refused
    /// road changes nothing.
    pub fn place_road(&mut self, game_status: GameStatus, edge: EdgeId, player: PlayerId) -> (r: Result<
        (),
        InvalidAction,
    >)
        ensures
            r == road_check(old(self)@, game_status, edge, player),
            r is Ok ==> final(self)@ == (BoardView {
                roads: old(self)@.roads.update(edge.0 as int, Some(player)),
                ..old(self)@
            }),
            r is Err ==> final(self)@ == old(self)@,
            final(self)@.wf(),
    {
        proof {
            use_type_invariant(&*self);
        }
        if edge.0 >= self.roads.len() {
            return Err(InvalidAction::UnexistingEdge(edge));
        }
        match self.can_place_road(game_status, edge, player) {
            Ok(()) => {},
            Err(e) => {
                return Err(e);
            },
        }
        let mut roads = copy_vec(&self.roads);
        roads.set(edge.0, Some(player));
        self.roads = roads;
        Ok(())
    }

    /// Builds a settlement for `player` on `vertex` if the rules allow it; a
    /// refused settlement changes nothing.
    pub fn place_settlement(&mut self, game_status: GameStatus, vertex: VertexId, player: PlayerId) -> (r:
        Result<(), InvalidAction>)
        ensures
            r == building_check(old(self)@, game_status, vertex, player),
            r is Ok ==> final(self)@ == (BoardView {
                buildings: old(self)@.buildings.update(
                    vertex.0 as int,
                    Some(Building { kind: BuildingKind::Settlement, owner: player }),
                ),
                ..old(self)@
            }),
            r is Err ==> final(self)@ == old(self)@,
            final(self)@.wf(),
    {
        proof {
            use_type_invariant(&*self);
        }
        match self.can_place_building(game_status, vertex, player) {
            Ok(()) => {},
            Err(e) => {
                return Err(e);
            },
        }
        let mut buildings = copy_vec(&self.buildings);
        buildings.set(vertex.0, Some(Building::new(BuildingKind::Settlement, player)));
        self.buildings = buildings;
        Ok(())
    }

    /// Moves the robber to `tile` if the rules allow it.
    pub fn move_robber(&mut self, tile_id: TileId) -> (r: Result<(), InvalidAction>)
        ensures
            r == robber_check(old(self)@, tile_id),
            r is Ok ==> final(self)@ == (BoardView { robber: tile_id, ..old(self)@ }),
            r is Err ==> final(self)@ == old(self)@,
            final(self)@.wf(),
    {
        proof {
            use_type_invariant(&*self);
        }
        if tile_id.0 >= self.tiles.len() {
            return Err(InvalidAction::UnexistingTile(tile_id));
        }
        match self.tiles[tile_id.0] {
            Tile::Desert => Err(InvalidAction::RobberNotOnDesert),
            _ => {
                if tile_id == self.robber {
                    return Err(InvalidAction::RobberMustMove);
                }
                self.robber = tile_id;
                Ok(())
            },
        }
    }

    /// Whether `player` may turn the building on `vertex` into a city.
    pub fn can_upgrade_settlement_to_city(&self, vertex: VertexId, player: PlayerId) -> (r: Result<
        (),
        InvalidAction,
    >)
        ensures
            r == upgrade_check(self@, vertex, player),
    {
        proof {
            use_type_invariant(&*self);
        }
        if vertex.0 >= self.topology.vertex_count() {
            return Err(InvalidAction::UnexistingVertex(vertex));
        }
        match self.buildings[vertex.0] {
            None => Err(InvalidAction::UnexistingBuilding(vertex)),
            Some(building) => match building.kind {
                BuildingKind::City => Err(InvalidAction::IsNotSettlement(vertex)),
                BuildingKind::Settlement => {
                    if building.owner == player {
                        Ok(())
                    } else {
                        Err(InvalidAction::NotYourSettlement(vertex))
                    }
                },
            },
        }
    }

    /// Turns `player`'s settlement on `vertex` into a city if the rules allow it.
    pub fn upgrade_settlement_to_city(&mut self, vertex: VertexId, player: PlayerId) -> (r: Result<
        (),
        InvalidAction,
    >)
        ensures
            r == upgrade_check(old(self)@, vertex, player),
            r is Ok ==> final(self)@ == (BoardView {
                buildings: old(self)@.buildings.update(
                    vertex.0 as int,
                    Some(Building { kind: BuildingKind::City, owner: player }),
                ),
                ..old(self)@
            }),
            r is Err ==> final(self)@ == old(self)@,
            final(self)@.wf(),
    {
        proof {
            use_type_invariant(&*self);
        }
        match self.can_upgrade_settlement_to_city(vertex, player) {
            Ok(()) => {},
            Err(e) => {
                return Err(e);
            },
        }
        let mut buildings = copy_vec(&self.buildings);
        buildings.set(vertex.0, Some(Building::new(BuildingKind::City, player)));
        self.buildings = buildings;
        Ok(())
    }

    /// What the tiles around `vertex` produce, one entry per producing tile,
    /// in tile order.
    pub fn resources_around(&self, vertex: VertexId) -> (r: Vec<Resource>)
        ensures
            r@ == around(self@, vertex, self@.tiles.len() as int),
    {
        proof {
            use_type_invariant(&*self);
        }
        let corners = self.topology.tile_vertices();
        let mut r: Vec<Resource> = Vec::new();
        let mut t: usize = 0;
        while t < self.tiles.len()
            invariant
                self@.wf(),
                corners@ == self@.topology.tile_vertices,
                0 <= t <= self@.tiles.len(),
                r@ == around(self@, vertex, t as int),
            decreases self@.tiles.len() - t,
        {
            let vs = corners[t];
            let mut found = false;
            let mut c: usize = 0;
            while c < 6
                invariant
                    0 <= c <= 6,
                    vs == self@.topology.tile_vertices[t as int],
                    found <==> exists|k: int| 0 <= k < c && vs[k] == vertex,
                decreases 6 - c,
            {
                if vs[c] == vertex {
                    found = true;
                }
                c = c + 1;
            }
            if found {
                match self.tiles[t].resource() {
                    Some(res) => {
                        r.push(res);
                    },
                    None => {},
                }
            }
            t = t + 1;
        }
        r
    }
}

} // verus!
