use vstd::prelude::*;

use crate::geometry::{dir_dq, dir_dr, HexDirection};
use crate::text::{decimal, with_number};

verus! {

/// A number that is not one of the six corners.
#[derive(Debug, Clone, Copy, PartialEq, Eq, Structural)]
pub struct InvalidHexCorner(pub usize);

impl InvalidHexCorner {
    /// The text that explains the error.
    pub open spec fn text(self) -> Seq<char> {
        decimal(self.0 as nat) + " n'est pas un corner valide (0-5)"@
    }

    /// Explains the error.
    pub fn message(&self) -> (r: String)
        ensures
            r@ == self.text(),
    {
        let r = with_number("", self.0, " n'est pas un corner valide (0-5)");
        proof {
            reveal_strlit("");
            assert(""@ + decimal(self.0 as nat) =~= decimal(self.0 as nat));
        }
        r
    }
}

/// One of the six corners of a hexagon; corner `c` lies between the
/// neighbours in directions `c` and `c + 1`.
#[derive(Debug, Clone, Copy, PartialEq, Eq, Structural)]
pub struct HexCorner(usize);

impl View for HexCorner {
    type V = int;

    closed spec fn view(&self) -> int {
        self.0 as int
    }
}

impl HexCorner {
    #[verifier::type_invariant]
    closed spec fn inv(self) -> bool {
        self.0 < 6
    }

    pub fn new(corner: usize) -> (r: Result<HexCorner, InvalidHexCorner>)
        ensures
            r is Ok <==> corner < 6,
            r matches Ok(c) ==> c@ == corner,
            r matches Err(e) ==> e.0 == corner,
    {
        if corner <= 5 {
            Ok(HexCorner(corner))
        } else {
            Err(InvalidHexCorner(corner))
        }
    }

    pub fn value(self) -> (v: usize)
        ensures
            v == self@,
            v < 6,
    {
        proof {
            use_type_invariant(&self);
        }
        self.0
    }

    pub(crate) fn nth(corner: usize) -> (c: HexCorner)
        requires
            corner < 6,
        ensures
            c@ == corner,
    {
        HexCorner(corner)
    }
}

/// A hexagon in axial coordinates.
#[derive(Debug, Clone, Copy, PartialEq, Eq, Hash, PartialOrd, Ord, Structural)]
pub struct Hex {
    pub q: i8,
    pub r: i8,
}

/// Every neighbour of `h` can be written with `i8` coordinates.
pub open spec fn hex_fits(h: Hex) -> bool {
    -127 <= h.q <= 126 && -127 <= h.r <= 126
}

/// The neighbour of `h` in direction `d`.
pub open spec fn hex_neighbor(h: Hex, d: int) -> Hex {
    Hex { q: (h.q + dir_dq(d)) as i8, r: (h.r + dir_dr(d)) as i8 }
}

/// Lexicographic order on `(q, r)`, the order `Ord` derives.
pub open spec fn hex_lt(a: Hex, b: Hex) -> bool {
    a.q < b.q || (a.q == b.q && a.r < b.r)
}

/// The two hexagons in increasing order.
pub open spec fn sort_two(a: Hex, b: Hex) -> Seq<Hex> {
    if hex_lt(b, a) {
        seq![b, a]
    } else {
        seq![a, b]
    }
}

/// The three hexagons in increasing order (a three-comparator sorting network).
pub open spec fn sort_three(a: Hex, b: Hex, c: Hex) -> Seq<Hex> {
    let (x, y) = if hex_lt(b, a) { (b, a) } else { (a, b) };
    let (y, z) = if hex_lt(c, y) { (c, y) } else { (y, c) };
    let (x, y) = if hex_lt(y, x) { (y, x) } else { (x, y) };
    seq![x, y, z]
}

/// The three hexagons that meet at corner `c` of `h`, in increasing order.
pub open spec fn corner_key(h: Hex, c: int) -> Seq<Hex> {
    sort_three(h, hex_neighbor(h, c), hex_neighbor(h, (c + 1) % 6))
}

/// The two hexagons on either side of side `d` of `h`, in increasing order.
pub open spec fn edge_key(h: Hex, d: int) -> Seq<Hex> {
    sort_two(h, hex_neighbor(h, d))
}

/// Sorting three hexagons does not depend on the order they come in.
proof fn lemma_sort_three_any_order(a: Hex, b: Hex, c: Hex)
    ensures
        sort_three(a, b, c) == sort_three(b, a, c),
        sort_three(a, b, c) == sort_three(a, c, b),
        sort_three(a, b, c) == sort_three(c, b, a),
        sort_three(a, b, c) == sort_three(b, c, a),
        sort_three(a, b, c) == sort_three(c, a, b),
{
    assert(sort_three(a, b, c) =~= sort_three(b, a, c));
    assert(sort_three(a, b, c) =~= sort_three(a, c, b));
    assert(sort_three(a, b, c) =~= sort_three(c, b, a));
    assert(sort_three(a, b, c) =~= sort_three(b, c, a));
    assert(sort_three(a, b, c) =~= sort_three(c, a, b));
}

/// The two corners at the ends of a side are different corners.
pub proof fn lemma_side_corners_differ(h: Hex, d: int)
    requires
        hex_fits(h),
        0 <= d < 6,
    ensures
        corner_key(h, (d + 5) % 6) != corner_key(h, d),
{
    let a = hex_neighbor(h, (d + 5) % 6);
    let b = hex_neighbor(h, d);
    let c = hex_neighbor(h, (d + 1) % 6);
    assert(((d + 5) % 6 + 1) % 6 == d);
    let s1 = sort_three(h, a, b);
    let s2 = sort_three(h, b, c);
    assert(s2.contains(c)) by {
        assert(s2[0] == c || s2[1] == c || s2[2] == c);
    }
    assert(!s1.contains(c)) by {
        assert(s1[0] != c && s1[1] != c && s1[2] != c);
    }
}

/// Two sides have the same key only when they are the same side of the
/// same hexagon, or the same side seen from the hexagon across it.
pub proof fn lemma_edge_key_sides(h: Hex, d: int, h2: Hex, d2: int)
    requires
        hex_fits(h),
        hex_fits(h2),
        0 <= d < 6,
        0 <= d2 < 6,
        edge_key(h, d) == edge_key(h2, d2),
    ensures
        (h2 == h && d2 == d) || (h2 == hex_neighbor(h, d) && d2 == (d + 3) % 6),
{
    let n = hex_neighbor(h, d);
    let n2 = hex_neighbor(h2, d2);
    assert(edge_key(h, d)[0] == edge_key(h2, d2)[0]);
    assert(edge_key(h, d)[1] == edge_key(h2, d2)[1]);
    assert((h == h2 && n == n2) || (h == n2 && n == h2));
}

/// Around a side, the hexagon across it sees the same two end corners,
/// in the other order.
pub proof fn lemma_corners_across_side(h: Hex, d: int)
    requires
        hex_fits(h),
        hex_fits(hex_neighbor(h, d)),
        0 <= d < 6,
    ensures
        corner_key(hex_neighbor(h, d), ((d + 3) % 6 + 5) % 6) == corner_key(h, d),
        corner_key(hex_neighbor(h, d), (d + 3) % 6) == corner_key(h, (d + 5) % 6),
{
    let n = hex_neighbor(h, d);
    let d2 = (d + 3) % 6;
    assert(hex_neighbor(n, d2) == h);
    assert(hex_neighbor(n, (d2 + 5) % 6) == hex_neighbor(h, (d + 1) % 6));
    assert(hex_neighbor(n, (d2 + 1) % 6) == hex_neighbor(h, (d + 5) % 6));
    assert((((d + 3) % 6 + 5) % 6 + 1) % 6 == d2);
    assert(((d + 5) % 6 + 1) % 6 == d);
    lemma_sort_three_any_order(h, n, hex_neighbor(h, (d + 1) % 6));
    lemma_sort_three_any_order(h, hex_neighbor(h, (d + 5) % 6), n);
}

fn hex_less(a: Hex, b: Hex) -> (res: bool)
    ensures
        res == hex_lt(a, b),
{
    a.q < b.q || (a.q == b.q && a.r < b.r)
}

impl Hex {
    pub fn new(q: i8, r: i8) -> (h: Hex)
        ensures
            h.q == q,
            h.r == r,
    {
        Hex { q, r }
    }

    pub fn q(self) -> (v: i8)
        ensures
            v == self.q,
    {
        self.q
    }

    pub fn r(self) -> (v: i8)
        ensures
            v == self.r,
    {
        self.r
    }

    pub fn neighbor(self, dir: HexDirection) -> (h: Hex)
        requires
            hex_fits(self),
        ensures
            h == hex_neighbor(self, dir@),
    {
        let d = dir.value();
        let (dq, dr): (i8, i8) = if d == 0 {
            (1, 0)
        } else if d == 1 {
            (1, -1)
        } else if d == 2 {
            (0, -1)
        } else if d == 3 {
            (-1, 0)
        } else if d == 4 {
            (-1, 1)
        } else {
            (0, 1)
        };
        Hex::new(self.q + dq, self.r + dr)
    }

    /// The three hexagons meeting at a corner, sorted: the key of a vertex.
    pub fn corner_hexes(self, corner: HexCorner) -> (hexes: [Hex; 3])
        requires
            hex_fits(self),
        ensures
            hexes@ == corner_key(self, corner@),
    {
        let c = corner.value();
        let a = self;
        let b = self.neighbor(HexDirection::nth(c));
        let c2 = self.neighbor(HexDirection::nth((c + 1) % 6));
        let hexes = sort3(a, b, c2);
        hexes
    }

    /// The two hexagons on either side of a side, sorted: the key of an edge.
    pub fn edge_hexes(self, dir: HexDirection) -> (hexes: [Hex; 2])
        requires
            hex_fits(self),
        ensures
            hexes@ == edge_key(self, dir@),
    {
        let other = self.neighbor(dir);
        let hexes = if hex_less(other, self) {
            [other, self]
        } else {
            [self, other]
        };
        assert(hexes@ =~= edge_key(self, dir@));
        hexes
    }
}

fn sort3(a: Hex, b: Hex, c: Hex) -> (r: [Hex; 3])
    ensures
        r@ == sort_three(a, b, c),
{
    let (x, y) = if hex_less(b, a) {
        (b, a)
    } else {
        (a, b)
    };
    let (y, z) = if hex_less(c, y) {
        (c, y)
    } else {
        (y, c)
    };
    let (x, y) = if hex_less(y, x) {
        (y, x)
    } else {
        (x, y)
    };
    let r = [x, y, z];
    assert(r@ =~= sort_three(a, b, c));
    r
}

} // verus!
