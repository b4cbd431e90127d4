use vstd::prelude::*;

use crate::resource::Resource;

verus! {

/// A value that no number token carries.
#[derive(Debug, Clone, Copy, PartialEq, Eq, Structural)]
pub struct InvalidNumberToken(pub u8);

/// The values printed on number tokens: two to twelve, seven excepted.
pub open spec fn valid_token(v: u8) -> bool {
    2 <= v <= 12 && v != 7
}

/// The number token laid on a producing tile.
#[derive(Debug, Clone, Copy, PartialEq, Eq, Hash, Structural)]
pub struct NumberToken(u8);

impl View for NumberToken {
    type V = u8;

    closed spec fn view(&self) -> u8 {
        self.0
    }
}

impl NumberToken {
    #[verifier::type_invariant]
    closed spec fn inv(self) -> bool {
        valid_token(self.0)
    }

    pub fn new(value: u8) -> (r: Result<NumberToken, InvalidNumberToken>)
        ensures
            r is Ok <==> valid_token(value),
            r matches Ok(t) ==> t@ == value,
            r matches Err(e) ==> e.0 == value,
    {
        if 2 <= value && value <= 12 && value != 7 {
            Ok(NumberToken(value))
        } else {
            Err(InvalidNumberToken(value))
        }
    }

    pub(crate) fn of(value: u8) -> (t: NumberToken)
        requires
            valid_token(value),
        ensures
            t@ == value,
    {
        NumberToken(value)
    }

    pub fn value(self) -> (v: u8)
        ensures
            v == self@,
            valid_token(v),
    {
        proof {
            use_type_invariant(&self);
        }
        self.0
    }
}

/// Why a terrain and a token cannot make a tile.
#[derive(Debug, Clone, Copy, PartialEq, Eq, Structural)]
pub enum TerrainTokenMismatch {
    DesertHasNoToken,
    MissingToken(Terrain),
}

impl TerrainTokenMismatch {
    /// The text that explains the mismatch.
    pub open spec fn text(self) -> Seq<char> {
        match self {
            TerrainTokenMismatch::DesertHasNoToken => "un désert ne peut pas porter de jeton"@,
            TerrainTokenMismatch::MissingToken(t) => terrain_name(t) + " doit porter un jeton"@,
        }
    }

    /// Explains the mismatch to a player.
    pub fn message(&self) -> (r: String)
        ensures
            r@ == self.text(),
    {
        match self {
            TerrainTokenMismatch::DesertHasNoToken => String::from_str(
                "un désert ne peut pas porter de jeton",
            ),
            TerrainTokenMismatch::MissingToken(t) => {
                let mut s = String::from_str(t.name());
                s.append(" doit porter un jeton");
                s
            },
        }
    }
}

/// The name of a terrain.
pub open spec fn terrain_name(t: Terrain) -> Seq<char> {
    match t {
        Terrain::Desert => "Desert"@,
        Terrain::Forest => "Forest"@,
        Terrain::Mountain => "Mountain"@,
        Terrain::Hills => "Hills"@,
        Terrain::Pasture => "Pasture"@,
        Terrain::Fields => "Fields"@,
    }
}

/// The kinds of land a tile can be.
#[derive(Debug, Clone, Copy, PartialEq, Eq, Hash, Structural)]
pub enum Terrain {
    Desert,
    Forest,
    Mountain,
    Hills,
    Pasture,
    Fields,
}

/// What a terrain produces.
pub open spec fn terrain_resource(t: Terrain) -> Option<Resource> {
    match t {
        Terrain::Desert => None,
        Terrain::Forest => Some(Resource::Wood),
        Terrain::Mountain => Some(Resource::Stone),
        Terrain::Hills => Some(Resource::Brick),
        Terrain::Pasture => Some(Resource::Wool),
        Terrain::Fields => Some(Resource::Wheat),
    }
}

/// The tile a terrain makes with the token laid on it, if they agree.
pub open spec fn make_tile(t: Terrain, token: Option<NumberToken>) -> Result<Tile, TerrainTokenMismatch> {
    match (t, token) {
        (Terrain::Desert, None) => Ok(Tile::Desert),
        (Terrain::Desert, Some(_)) => Err(TerrainTokenMismatch::DesertHasNoToken),
        (_, None) => Err(TerrainTokenMismatch::MissingToken(t)),
        (Terrain::Forest, Some(n)) => Ok(Tile::Forest(n)),
        (Terrain::Mountain, Some(n)) => Ok(Tile::Mountain(n)),
        (Terrain::Hills, Some(n)) => Ok(Tile::Hills(n)),
        (Terrain::Pasture, Some(n)) => Ok(Tile::Pasture(n)),
        (Terrain::Fields, Some(n)) => Ok(Tile::Fields(n)),
    }
}

/// Position of a terrain in `Terrain::ALL`.
pub open spec fn terrain_slot(t: Terrain) -> int {
    match t {
        Terrain::Desert => 0,
        Terrain::Forest => 1,
        Terrain::Mountain => 2,
        Terrain::Hills => 3,
        Terrain::Pasture => 4,
        Terrain::Fields => 5,
    }
}

impl Terrain {
    /// The name of the terrain.
    pub fn name(&self) -> (r: &'static str)
        ensures
            r@ == terrain_name(*self),
    {
        match self {
            Terrain::Desert => "Desert",
            Terrain::Forest => "Forest",
            Terrain::Mountain => "Mountain",
            Terrain::Hills => "Hills",
            Terrain::Pasture => "Pasture",
            Terrain::Fields => "Fields",
        }
    }

    pub const ALL: [Terrain; 6] = [
        Terrain::Desert,
        Terrain::Forest,
        Terrain::Mountain,
        Terrain::Hills,
        Terrain::Pasture,
        Terrain::Fields,
    ];

    pub fn into_tile(self, token: Option<NumberToken>) -> (r: Result<Tile, TerrainTokenMismatch>)
        ensures
            r == make_tile(self, token),
    {
        match (self, token) {
            (Terrain::Desert, None) => Ok(Tile::Desert),
            (Terrain::Desert, Some(_)) => Err(TerrainTokenMismatch::DesertHasNoToken),
            (_, None) => Err(TerrainTokenMismatch::MissingToken(self)),
            (Terrain::Forest, Some(n)) => Ok(Tile::Forest(n)),
            (Terrain::Mountain, Some(n)) => Ok(Tile::Mountain(n)),
            (Terrain::Hills, Some(n)) => Ok(Tile::Hills(n)),
            (Terrain::Pasture, Some(n)) => Ok(Tile::Pasture(n)),
            (Terrain::Fields, Some(n)) => Ok(Tile::Fields(n)),
        }
    }

    pub fn resource(self) -> (r: Option<Resource>)
        ensures
            r == terrain_resource(self),
    {
        match self {
            Terrain::Desert => None,
            Terrain::Forest => Some(Resource::Wood),
            Terrain::Mountain => Some(Resource::Stone),
            Terrain::Hills => Some(Resource::Brick),
            Terrain::Pasture => Some(Resource::Wool),
            Terrain::Fields => Some(Resource::Wheat),
        }
    }

    pub fn index(self) -> (i: usize)
        ensures
            i == terrain_slot(self),
    {
        match self {
            Terrain::Desert => 0,
            Terrain::Forest => 1,
            Terrain::Mountain => 2,
            Terrain::Hills => 3,
            Terrain::Pasture => 4,
            Terrain::Fields => 5,
        }
    }
}

/// A tile of the board: its terrain and, unless it is the desert, its token.
#[derive(Debug, Clone, Copy, PartialEq, Eq, Hash, Structural)]
pub enum Tile {
    Desert,
    Forest(NumberToken),
    Mountain(NumberToken),
    Hills(NumberToken),
    Pasture(NumberToken),
    Fields(NumberToken),
}

pub open spec fn tile_terrain(t: Tile) -> Terrain {
    match t {
        Tile::Desert => Terrain::Desert,
        Tile::Forest(_) => Terrain::Forest,
        Tile::Mountain(_) => Terrain::Mountain,
        Tile::Hills(_) => Terrain::Hills,
        Tile::Pasture(_) => Terrain::Pasture,
        Tile::Fields(_) => Terrain::Fields,
    }
}

pub open spec fn tile_number(t: Tile) -> Option<NumberToken> {
    match t {
        Tile::Desert => None,
        Tile::Forest(n) => Some(n),
        Tile::Mountain(n) => Some(n),
        Tile::Hills(n) => Some(n),
        Tile::Pasture(n) => Some(n),
        Tile::Fields(n) => Some(n),
    }
}

impl Tile {
    pub fn terrain(self) -> (t: Terrain)
        ensures
            t == tile_terrain(self),
    {
        match self {
            Tile::Desert => Terrain::Desert,
            Tile::Forest(_) => Terrain::Forest,
            Tile::Mountain(_) => Terrain::Mountain,
            Tile::Hills(_) => Terrain::Hills,
            Tile::Pasture(_) => Terrain::Pasture,
            Tile::Fields(_) => Terrain::Fields,
        }
    }

    pub fn resource(self) -> (r: Option<Resource>)
        ensures
            r == terrain_resource(tile_terrain(self)),
    {
        self.terrain().resource()
    }

    pub fn number(self) -> (n: Option<NumberToken>)
        ensures
            n == tile_number(self),
    {
        match self {
            Tile::Forest(n) => Some(n),
            Tile::Mountain(n) => Some(n),
            Tile::Hills(n) => Some(n),
            Tile::Pasture(n) => Some(n),
            Tile::Fields(n) => Some(n),
            Tile::Desert => None,
        }
    }
}

/// A tile made from a terrain and a token gives back that terrain and that
/// token, and produces what the terrain produces.
pub proof fn law_tile_agrees_with_terrain(t: Terrain, token: Option<NumberToken>)
    ensures
        make_tile(t, token) matches Ok(tile) ==> tile_terrain(tile) == t && tile_number(tile) == token
            && terrain_resource(tile_terrain(tile)) == terrain_resource(t),
        make_tile(t, token) is Ok <==> (t == Terrain::Desert <==> token is None),
{
}

} // verus!
