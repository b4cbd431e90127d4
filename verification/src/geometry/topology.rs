use vstd::prelude::*;

use crate::geometry::hex::{
    corner_key, edge_key, hex_fits, hex_lt, hex_neighbor, lemma_corners_across_side,
    lemma_edge_key_sides, lemma_side_corners_differ, Hex, HexCorner,
};
use crate::geometry::ids::TileId;
use crate::geometry::ids::{EdgeId, VertexId};
use crate::geometry::{dir_dq, HexDirection};

verus! {

/// The keys met in order while walking every tile's six corners.
pub open spec fn corner_keys(hexes: Seq<Hex>) -> Seq<Seq<Hex>> {
    Seq::new(6 * hexes.len(), |j: int| corner_key(hexes[j / 6], j % 6))
}

/// The keys met in order while walking every tile's six sides.
pub open spec fn edge_keys(hexes: Seq<Hex>) -> Seq<Seq<Hex>> {
    Seq::new(6 * hexes.len(), |j: int| edge_key(hexes[j / 6], j % 6))
}

/// The distinct elements of `s`, in order of first appearance.
pub open spec fn dedup<A>(s: Seq<A>) -> Seq<A>
    decreases s.len(),
{
    if s.len() == 0 {
        s
    } else {
        let d = dedup(s.drop_last());
        if d.contains(s.last()) {
            d
        } else {
            d.push(s.last())
        }
    }
}

/// `p` holds `a` and `b`, the smaller first.
pub open spec fn ordered_pair(a: VertexId, b: VertexId, p: [VertexId; 2]) -> bool {
    if a.0 <= b.0 {
        p[0] == a && p[1] == b
    } else {
        p[0] == b && p[1] == a
    }
}

/// Every hexagon's neighbours have `i8` coordinates.
pub open spec fn all_fit(hexes: Seq<Hex>) -> bool {
    forall|i: int| 0 <= i < hexes.len() ==> hex_fits(#[trigger] hexes[i])
}

/// The shape of a board: its hexagons and the vertices and edges between them.
pub struct TopologyView {
    pub hexes: Seq<Hex>,
    pub tile_vertices: Seq<[VertexId; 6]>,
    pub tile_edges: Seq<[EdgeId; 6]>,
    pub edges_endpoints: Seq<[VertexId; 2]>,
    pub vertex_count: nat,
    pub edge_count: nat,
}

impl TopologyView {
    /// Every id that the topology hands out names a vertex or an edge it has.
    pub open spec fn wf(self) -> bool {
        &&& all_fit(self.hexes)
        &&& self.vertex_count <= usize::MAX
        &&& self.edge_count <= usize::MAX
        &&& self.tile_vertices.len() == self.hexes.len()
        &&& self.tile_edges.len() == self.hexes.len()
        &&& self.edges_endpoints.len() == self.edge_count
        &&& forall|t: int, c: int|
            0 <= t < self.hexes.len() && 0 <= c < 6 ==> (#[trigger] self.tile_vertices[t][c]).0
                < self.vertex_count
        &&& forall|t: int, d: int|
            0 <= t < self.hexes.len() && 0 <= d < 6 ==> (#[trigger] self.tile_edges[t][d]).0
                < self.edge_count
        &&& forall|e: int, i: int|
            0 <= e < self.edge_count && 0 <= i < 2 ==> (#[trigger] self.edges_endpoints[e][i]).0
                < self.vertex_count
    }

    /// The endpoints of edge `e` are the two corners around the side of the
    /// tile where the edge first appears, smaller id first.
    pub open spec fn endpoints_at_origin(self, hexes: Seq<Hex>, e: int) -> bool {
        exists|j: int|
            first_at(edge_keys(hexes), dedup(edge_keys(hexes))[e], j) && ordered_pair(
                self.tile_vertices[j / 6][(j % 6 + 5) % 6],
                self.tile_vertices[j / 6][j % 6],
                self.edges_endpoints[e],
            )
    }

    /// The topology is the one built from `hexes`: vertices and edges are
    /// numbered in order of first appearance while walking the tiles, each
    /// tile names the vertex and edge of each of its corners and sides, and
    /// each edge's endpoints are the two corners around the side where the
    /// edge first appears, smaller id first.
    pub open spec fn built_from(self, hexes: Seq<Hex>) -> bool {
        let vk = dedup(corner_keys(hexes));
        let ek = dedup(edge_keys(hexes));
        &&& self.hexes == hexes
        &&& self.wf()
        &&& self.vertex_count == vk.len()
        &&& self.edge_count == ek.len()
        &&& forall|t: int, c: int|
            0 <= t < hexes.len() && 0 <= c < 6 ==> vk[(#[trigger] self.tile_vertices[t][c]).0 as int]
                == corner_key(hexes[t], c)
        &&& forall|t: int, d: int|
            0 <= t < hexes.len() && 0 <= d < 6 ==> ek[(#[trigger] self.tile_edges[t][d]).0 as int]
                == edge_key(hexes[t], d)
        &&& forall|e: int| 0 <= e < ek.len() ==> #[trigger] self.endpoints_at_origin(hexes, e)
    }
}

/// No element appears twice in `dedup(s)`, and it holds exactly the elements of `s`.
pub proof fn lemma_dedup<A>(s: Seq<A>)
    ensures
        forall|i: int, j: int|
            0 <= i < j < dedup(s).len() ==> dedup(s)[i] != dedup(s)[j],
        forall|x: A| dedup(s).contains(x) <==> s.contains(x),
    decreases s.len(),
{
    if s.len() > 0 {
        lemma_dedup(s.drop_last());
        let d = dedup(s.drop_last());
        let p = s.drop_last();
        assert forall|x: A| dedup(s).contains(x) <==> s.contains(x) by {
            if s.contains(x) {
                let k = choose|k: int| 0 <= k < s.len() && s[k] == x;
                if k < s.len() - 1 {
                    assert(p[k] == x);
                    assert(p.contains(x));
                    assert(d.contains(x));
                    let i = choose|i: int| 0 <= i < d.len() && d[i] == x;
                    if !d.contains(s.last()) {
                        assert(dedup(s)[i] == x);
                    }
                } else {
                    if !d.contains(x) {
                        assert(dedup(s) == d.push(x));
                        assert(dedup(s)[d.len() as int] == x);
                    }
                }
            }
            if dedup(s).contains(x) && x == s.last() {
                assert(s[s.len() - 1] == x);
            }
            if dedup(s).contains(x) && x != s.last() {
                assert(d.contains(x));
                assert(p.contains(x));
                let k = choose|k: int| 0 <= k < p.len() && p[k] == x;
                assert(s[k] == p[k]);
                assert(s.contains(x));
            }
        }
    }
}

proof fn lemma_dedup_step<A>(s: Seq<A>, k: int)
    requires
        0 <= k < s.len(),
    ensures
        dedup(s.take(k + 1)) == (if dedup(s.take(k)).contains(s[k]) {
            dedup(s.take(k))
        } else {
            dedup(s.take(k)).push(s[k])
        }),
{
    assert(s.take(k + 1).drop_last() =~= s.take(k));
}

proof fn lemma_div6(t: int, c: int)
    requires
        0 <= t,
        0 <= c < 6,
    ensures
        (6 * t + c) / 6 == t,
        (6 * t + c) % 6 == c,
{
    vstd::arithmetic::div_mod::lemma_fundamental_div_mod_converse(6 * t + c, 6, t, c);
}

spec fn keys3(v: Seq<[Hex; 3]>) -> Seq<Seq<Hex>> {
    v.map_values(|a: [Hex; 3]| a@)
}

spec fn keys2(v: Seq<[Hex; 2]>) -> Seq<Seq<Hex>> {
    v.map_values(|a: [Hex; 2]| a@)
}

fn find3(keys: &Vec<[Hex; 3]>, key: &[Hex; 3]) -> (r: Option<usize>)
    ensures
        r matches Some(i) ==> i < keys.len() && keys3(keys@)[i as int] == key@,
        r is None ==> !keys3(keys@).contains(key@),
{
    let mut i: usize = 0;
    while i < keys.len()
        invariant
            0 <= i <= keys.len(),
            forall|j: int| 0 <= j < i ==> keys3(keys@)[j] != key@,
        decreases keys.len() - i,
    {
        let k = &keys[i];
        if k[0] == key[0] && k[1] == key[1] && k[2] == key[2] {
            assert(keys3(keys@)[i as int] =~= key@);
            return Some(i);
        }
        assert(keys3(keys@)[i as int][0] != key@[0] || keys3(keys@)[i as int][1] != key@[1]
            || keys3(keys@)[i as int][2] != key@[2]);
        i = i + 1;
    }
    None
}

fn find2(keys: &Vec<[Hex; 2]>, key: &[Hex; 2]) -> (r: Option<usize>)
    ensures
        r matches Some(i) ==> i < keys.len() && keys2(keys@)[i as int] == key@,
        r is None ==> !keys2(keys@).contains(key@),
{
    let mut i: usize = 0;
    while i < keys.len()
        invariant
            0 <= i <= keys.len(),
            forall|j: int| 0 <= j < i ==> keys2(keys@)[j] != key@,
        decreases keys.len() - i,
    {
        let k = &keys[i];
        if k[0] == key[0] && k[1] == key[1] {
            assert(keys2(keys@)[i as int] =~= key@);
            return Some(i);
        }
        assert(keys2(keys@)[i as int][0] != key@[0] || keys2(keys@)[i as int][1] != key@[1]);
        i = i + 1;
    }
    None
}

/// The vertices of each tile, numbered in order of first appearance.
fn number_vertices(hexes: &Vec<Hex>) -> (r: (Vec<[VertexId; 6]>, usize))
    requires
        all_fit(hexes@),
    ensures
        r.0@.len() == hexes@.len(),
        r.1 == dedup(corner_keys(hexes@)).len(),
        forall|t: int, c: int|
            0 <= t < hexes@.len() && 0 <= c < 6 ==> (#[trigger] r.0@[t][c]).0 < r.1 && dedup(
                corner_keys(hexes@),
            )[r.0@[t][c].0 as int] == corner_key(hexes@[t], c),
{
    let ghost ck = corner_keys(hexes@);
    let n = hexes.len();
    let mut keys: Vec<[Hex; 3]> = Vec::new();
    let mut tiles: Vec<[VertexId; 6]> = Vec::new();
    let mut t: usize = 0;
    while t < n
        invariant
            n == hexes@.len(),
            ck == corner_keys(hexes@),
            all_fit(hexes@),
            0 <= t <= n,
            tiles@.len() == t,
            keys3(keys@) == dedup(ck.take(6 * t)),
            keys@.len() <= 6 * t,
            forall|t2: int, c: int|
                0 <= t2 < t && 0 <= c < 6 ==> (#[trigger] tiles@[t2][c]).0 < keys@.len()
                    && keys3(keys@)[tiles@[t2][c].0 as int] == corner_key(hexes@[t2], c),
        decreases n - t,
    {
        let h = hexes[t];
        assert(hex_fits(hexes@[t as int]));
        let mut vs: [VertexId; 6] = [VertexId(0), VertexId(0), VertexId(0), VertexId(0), VertexId(0), VertexId(0)];
        let mut c: usize = 0;
        while c < 6
            invariant
                n == hexes@.len(),
                    ck == corner_keys(hexes@),
                0 <= t < n,
                h == hexes@[t as int],
                hex_fits(h),
                0 <= c <= 6,
                tiles@.len() == t,
                keys3(keys@) == dedup(ck.take(6 * t + c)),
                keys@.len() <= 6 * t + c,
                forall|t2: int, c2: int|
                    0 <= t2 < t && 0 <= c2 < 6 ==> (#[trigger] tiles@[t2][c2]).0 < keys@.len()
                        && keys3(keys@)[tiles@[t2][c2].0 as int] == corner_key(hexes@[t2], c2),
                forall|c2: int|
                    0 <= c2 < c ==> (#[trigger] vs[c2]).0 < keys@.len() && keys3(keys@)[vs[c2].0 as int]
                        == corner_key(h, c2),
            decreases 6 - c,
        {
            let key = h.corner_hexes(HexCorner::nth(c));
            proof {
                lemma_div6(t as int, c as int);
                lemma_dedup_step(ck, 6 * t + c);
                assert(ck[6 * t + c] == corner_key(h, c as int));
            }
            match find3(&keys, &key) {
                Some(i) => {
                    assert(keys3(keys@).contains(key@));
                    vs[c] = VertexId(i);
                },
                None => {
                    let ghost old_keys = keys@;
                    vs[c] = VertexId(keys.len());
                    keys.push(key);
                    assert(keys3(keys@) =~= keys3(old_keys).push(key@));
                },
            }
            c = c + 1;
        }
        tiles.push(vs);
        t = t + 1;
    }
    assert(ck.take(6 * n) =~= ck);
    (tiles, keys.len())
}

/// `j` is where `key` first appears in `ek`.
pub open spec fn first_at(ek: Seq<Seq<Hex>>, key: Seq<Hex>, j: int) -> bool {
    0 <= j < ek.len() && ek[j] == key && forall|i: int| 0 <= i < j ==> ek[i] != key
}

/// The edges of each tile, numbered in order of first appearance, and the
/// endpoints of each edge, read off the tile where it first appears.
fn number_edges(hexes: &Vec<Hex>, vertices: &Vec<[VertexId; 6]>) -> (r: (
    Vec<[EdgeId; 6]>,
    Vec<[VertexId; 2]>,
))
    requires
        all_fit(hexes@),
        vertices@.len() == hexes@.len(),
    ensures
        r.0@.len() == hexes@.len(),
        r.1@.len() == dedup(edge_keys(hexes@)).len(),
        forall|t: int, d: int|
            0 <= t < hexes@.len() && 0 <= d < 6 ==> (#[trigger] r.0@[t][d]).0 < r.1@.len() && dedup(
                edge_keys(hexes@),
            )[r.0@[t][d].0 as int] == edge_key(hexes@[t], d),
        forall|e: int|
            0 <= e < r.1@.len() ==> exists|j: int|
                0 <= j < edge_keys(hexes@).len() && edge_keys(hexes@)[j] == dedup(edge_keys(hexes@))[e]
                    && (forall|i: int|
                    0 <= i < j ==> edge_keys(hexes@)[i] != dedup(edge_keys(hexes@))[e])
                    && ordered_pair(
                    vertices@[j / 6][(j % 6 + 5) % 6],
                    vertices@[j / 6][j % 6],
                    #[trigger] r.1@[e],
                ),
{
    let ghost ek = edge_keys(hexes@);
    let n = hexes.len();
    let mut keys: Vec<[Hex; 2]> = Vec::new();
    let mut tiles: Vec<[EdgeId; 6]> = Vec::new();
    let mut endpoints: Vec<[VertexId; 2]> = Vec::new();
    let ghost mut origins: Seq<int> = Seq::empty();
    let mut t: usize = 0;
    while t < n
        invariant
            n == hexes@.len(),
            vertices@.len() == n,
            ek == edge_keys(hexes@),
            ek.len() == 6 * n,
            all_fit(hexes@),
            0 <= t <= n,
            tiles@.len() == t,
            keys@.len() == endpoints@.len(),
            origins.len() == keys@.len(),
            keys2(keys@) == dedup(ek.take(6 * t)),
            keys@.len() <= 6 * t,
            forall|t2: int, d: int|
                0 <= t2 < t && 0 <= d < 6 ==> (#[trigger] tiles@[t2][d]).0 < keys@.len()
                    && keys2(keys@)[tiles@[t2][d].0 as int] == edge_key(hexes@[t2], d),
            forall|e: int| 0 <= e < keys@.len() ==> #[trigger] origins[e] < 6 * t,
                forall|e: int| 0 <= e < keys@.len() ==> first_at(ek, #[trigger] keys2(keys@)[e], origins[e]),
                forall|e: int|
                    0 <= e < keys@.len() ==> ordered_pair(
                        vertices@[origins[e] / 6][(origins[e] % 6 + 5) % 6],
                        vertices@[origins[e] / 6][origins[e] % 6],
                        #[trigger] endpoints@[e],
                    ),
        decreases n - t,
    {
        let h = hexes[t];
        let vs = vertices[t];
        assert(hex_fits(hexes@[t as int]));
        let mut es: [EdgeId; 6] = [EdgeId(0), EdgeId(0), EdgeId(0), EdgeId(0), EdgeId(0), EdgeId(0)];
        let mut d: usize = 0;
        while d < 6
            invariant
                n == hexes@.len(),
                    vertices@.len() == n,
                ek == edge_keys(hexes@),
                ek.len() == 6 * n,
                0 <= t < n,
                h == hexes@[t as int],
                vs == vertices@[t as int],
                hex_fits(h),
                0 <= d <= 6,
                tiles@.len() == t,
                keys@.len() == endpoints@.len(),
                origins.len() == keys@.len(),
                keys2(keys@) == dedup(ek.take(6 * t + d)),
                keys@.len() <= 6 * t + d,
                forall|t2: int, d2: int|
                    0 <= t2 < t && 0 <= d2 < 6 ==> (#[trigger] tiles@[t2][d2]).0 < keys@.len()
                        && keys2(keys@)[tiles@[t2][d2].0 as int] == edge_key(hexes@[t2], d2),
                forall|d2: int|
                    0 <= d2 < d ==> (#[trigger] es[d2]).0 < keys@.len() && keys2(keys@)[es[d2].0 as int]
                        == edge_key(h, d2),
                forall|e: int| 0 <= e < keys@.len() ==> #[trigger] origins[e] < 6 * t + d,
                forall|e: int| 0 <= e < keys@.len() ==> first_at(ek, #[trigger] keys2(keys@)[e], origins[e]),
                forall|e: int|
                    0 <= e < keys@.len() ==> ordered_pair(
                        vertices@[origins[e] / 6][(origins[e] % 6 + 5) % 6],
                        vertices@[origins[e] / 6][origins[e] % 6],
                        #[trigger] endpoints@[e],
                    ),
            decreases 6 - d,
        {
            let key = h.edge_hexes(HexDirection::nth(d));
            proof {
                lemma_div6(t as int, d as int);
                lemma_dedup_step(ek, 6 * t + d);
                assert(ek[6 * t + d] == edge_key(h, d as int));
            }
            match find2(&keys, &key) {
                Some(i) => {
                    assert(keys2(keys@).contains(key@));
                    es[d] = EdgeId(i);
                },
                None => {
                    let ghost old_keys = keys@;
                    let ghost old_endpoints = endpoints@;
                    let ghost j = 6 * t + d;
                    let a = vs[(d + 5) % 6];
                    let b = vs[d];
                    let pair = if a.0 <= b.0 {
                        [a, b]
                    } else {
                        [b, a]
                    };
                    es[d] = EdgeId(keys.len());
                    keys.push(key);
                    endpoints.push(pair);
                    proof {
                        origins = origins.push(j);
                        assert(keys2(keys@) =~= keys2(old_keys).push(key@));
                        lemma_dedup(ek.take(j));
                        assert forall|i: int| 0 <= i < j implies ek[i] != key@ by {
                            assert(ek.take(j)[i] == ek[i]);
                            if ek[i] == key@ {
                                assert(ek.take(j).contains(key@));
                            }
                        }
                        assert(first_at(ek, key@, j));
                        assert forall|e: int| 0 <= e < old_keys.len() implies endpoints@[e]
                            == old_endpoints[e] && keys2(keys@)[e] == keys2(old_keys)[e] by {}
                    }
                },
            }
            d = d + 1;
        }
        tiles.push(es);
        t = t + 1;
    }
    assert(ek.take(6 * n) =~= ek);
    assert forall|e: int| 0 <= e < endpoints@.len() implies exists|j: int|
        0 <= j < edge_keys(hexes@).len() && edge_keys(hexes@)[j] == dedup(edge_keys(hexes@))[e] && (forall|
            i: int,
        | 0 <= i < j ==> edge_keys(hexes@)[i] != dedup(edge_keys(hexes@))[e]) && ordered_pair(
            vertices@[j / 6][(j % 6 + 5) % 6],
            vertices@[j / 6][j % 6],
            #[trigger] endpoints@[e],
        ) by {
        let j = origins[e];
        assert(first_at(ek, keys2(keys@)[e], j));
    }
    (tiles, endpoints)
}

/// `v` is one of the two endpoints of edge `e`.
pub open spec fn touches(t: TopologyView, e: int, v: VertexId) -> bool {
    t.edges_endpoints[e][0] == v || t.edges_endpoints[e][1] == v
}

/// The edges among the first `n` that touch `v`, in increasing order.
pub open spec fn edges_at(t: TopologyView, v: VertexId, n: int) -> Seq<EdgeId>
    decreases n,
{
    if n <= 0 {
        Seq::empty()
    } else if touches(t, n - 1, v) {
        edges_at(t, v, n - 1).push(EdgeId((n - 1) as usize))
    } else {
        edges_at(t, v, n - 1)
    }
}

/// The edges that touch `v`, in increasing order.
pub open spec fn connected(t: TopologyView, v: VertexId) -> Seq<EdgeId> {
    edges_at(t, v, t.edge_count as int)
}

/// The endpoint of edge `e` that is not `v`.
pub open spec fn other_end(t: TopologyView, e: EdgeId, v: VertexId) -> VertexId {
    if t.edges_endpoints[e.0 as int][0] == v {
        t.edges_endpoints[e.0 as int][1]
    } else {
        t.edges_endpoints[e.0 as int][0]
    }
}

/// The vertices one edge away from `v`, in the order of the edges between them.
pub open spec fn neighbors(t: TopologyView, v: VertexId) -> Seq<VertexId> {
    connected(t, v).map_values(|e: EdgeId| other_end(t, e, v))
}

/// `b` is one step from `a` in some direction.
pub open spec fn hex_adjacent(a: Hex, b: Hex) -> bool {
    exists|d: int| 0 <= d < 6 && b == #[trigger] hex_neighbor(a, d)
}

/// Tile pairs in lexicographic order.
pub open spec fn pair_lt(x: (TileId, TileId), y: (TileId, TileId)) -> bool {
    x.0.0 < y.0.0 || (x.0.0 == y.0.0 && x.1.0 < y.1.0)
}

pub open spec fn abs(x: int) -> int {
    if x < 0 {
        -x
    } else {
        x
    }
}

/// `h` lies within `radius` steps of the centre.
pub open spec fn in_hexagon(h: Hex, radius: int) -> bool {
    abs(h.q as int) <= radius && abs(h.r as int) <= radius && abs(h.q + h.r) <= radius
}

/// `q` coordinate of step `s` along side `i` of the ring at distance `k`.
pub open spec fn ring_q(k: int, i: int, s: int) -> int {
    if i == 0 {
        -k + s
    } else if i == 1 {
        s
    } else if i == 2 {
        k
    } else if i == 3 {
        k - s
    } else if i == 4 {
        -s
    } else {
        -k
    }
}

/// `r` coordinate of step `s` along side `i` of the ring at distance `k`.
pub open spec fn ring_r(k: int, i: int, s: int) -> int {
    if i == 0 {
        k
    } else if i == 1 {
        k - s
    } else if i == 2 {
        -s
    } else if i == 3 {
        -k
    } else if i == 4 {
        -k + s
    } else {
        s
    }
}

/// The ring at distance `k`, starting at `(-k, k)` and walking the six
/// directions in turn.
pub open spec fn ring(k: int) -> Seq<Hex> {
    Seq::new(
        (6 * k) as nat,
        |j: int| Hex { q: ring_q(k, j / k, j % k) as i8, r: ring_r(k, j / k, j % k) as i8 },
    )
}

/// The rings from distance `radius` inwards, then the centre.
pub open spec fn spiral_of(radius: int) -> Seq<Hex>
    decreases radius,
{
    if radius <= 0 {
        seq![Hex { q: 0, r: 0 }]
    } else {
        ring(radius) + spiral_of(radius - 1)
    }
}

pub(crate) fn copy_vec<T: Copy>(v: &Vec<T>) -> (r: Vec<T>)
    ensures
        r@ == v@,
{
    let mut r: Vec<T> = Vec::new();
    let mut i: usize = 0;
    while i < v.len()
        invariant
            0 <= i <= v.len(),
            r@ == v@.take(i as int),
        decreases v.len() - i,
    {
        r.push(v[i]);
        i = i + 1;
        assert(r@ =~= v@.take(i as int));
    }
    assert(v@.take(v.len() as int) =~= v@);
    r
}

/// The shape of a board: the hexagons, and the vertices and edges numbered
/// once and for all when it is built.
#[derive(Debug, PartialEq)]
pub struct Topology {
    hexes: Vec<Hex>,
    tile_vertices: Vec<[VertexId; 6]>,
    tile_edges: Vec<[EdgeId; 6]>,
    edges_endpoints: Vec<[VertexId; 2]>,
    vertex_count: usize,
    edge_count: usize,
}

impl View for Topology {
    type V = TopologyView;

    closed spec fn view(&self) -> TopologyView {
        TopologyView {
            hexes: self.hexes@,
            tile_vertices: self.tile_vertices@,
            tile_edges: self.tile_edges@,
            edges_endpoints: self.edges_endpoints@,
            vertex_count: self.vertex_count as nat,
            edge_count: self.edge_count as nat,
        }
    }
}

impl Clone for Topology {
    fn clone(&self) -> (r: Topology)
        ensures
            r@ == self@,
    {
        proof {
            use_type_invariant(self);
        }
        Topology {
            hexes: copy_vec(&self.hexes),
            tile_vertices: copy_vec(&self.tile_vertices),
            tile_edges: copy_vec(&self.tile_edges),
            edges_endpoints: copy_vec(&self.edges_endpoints),
            vertex_count: self.vertex_count,
            edge_count: self.edge_count,
        }
    }
}

impl Topology {
    /// The ids a topology hands out name vertices and edges it has.
    #[verifier::type_invariant]
    pub open spec fn inv(self) -> bool {
        self@.wf()
    }

    fn new() -> (t: Topology)
        ensures
            t@.hexes.len() == 0,
            t@.built_from(Seq::empty()),
    {
        let t = Topology {
            hexes: Vec::new(),
            tile_vertices: Vec::new(),
            tile_edges: Vec::new(),
            edges_endpoints: Vec::new(),
            vertex_count: 0,
            edge_count: 0,
        };
        assert(corner_keys(Seq::<Hex>::empty()) =~= Seq::empty());
        assert(edge_keys(Seq::<Hex>::empty()) =~= Seq::empty());
        t
    }

    /// Numbers the vertices and edges of the given hexagons.
    pub fn from_hexes(hexes: &[Hex]) -> (topology: Topology)
        requires
            all_fit(hexes@),
        ensures
            topology@.built_from(hexes@),
    {
        if hexes.len() == 0 {
            let t = Topology::new();
            assert(hexes@ =~= Seq::<Hex>::empty());
            return t;
        }
        let mut list: Vec<Hex> = Vec::new();
        let mut i: usize = 0;
        while i < hexes.len()
            invariant
                0 <= i <= hexes@.len(),
                list@ == hexes@.take(i as int),
            decreases hexes@.len() - i,
        {
            list.push(hexes[i]);
            i = i + 1;
            assert(list@ =~= hexes@.take(i as int));
        }
        assert(hexes@.take(hexes@.len() as int) =~= hexes@);
        let (tile_vertices, vertex_count) = number_vertices(&list);
        let (tile_edges, edges_endpoints) = number_edges(&list, &tile_vertices);
        let edge_count = edges_endpoints.len();
        let topology = Topology {
            hexes: list,
            tile_vertices,
            tile_edges,
            edges_endpoints,
            vertex_count,
            edge_count,
        };
        proof {
            let v = topology@;
            assert forall|e: int, k: int|
                0 <= e < v.edge_count && 0 <= k < 2 implies (#[trigger] v.edges_endpoints[e][k]).0
                < v.vertex_count by {
                let ek = dedup(edge_keys(hexes@));
                let j = choose|j: int|
                    0 <= j < edge_keys(hexes@).len() && edge_keys(hexes@)[j] == ek[e] && (forall|i: int|
                        0 <= i < j ==> edge_keys(hexes@)[i] != ek[e]) && ordered_pair(
                        v.tile_vertices[j / 6][(j % 6 + 5) % 6],
                        v.tile_vertices[j / 6][j % 6],
                        v.edges_endpoints[e],
                    );
                assert(0 <= j / 6 < hexes@.len());
                assert(v.tile_vertices[j / 6][(j % 6 + 5) % 6].0 < v.vertex_count);
                assert(v.tile_vertices[j / 6][j % 6].0 < v.vertex_count);
            }
            assert(v.hexes == hexes@);
            assert(v.wf());
            assert(v.vertex_count == dedup(corner_keys(hexes@)).len());
            assert(v.edge_count == dedup(edge_keys(hexes@)).len());
            let vk = dedup(corner_keys(hexes@));
            let ek = dedup(edge_keys(hexes@));
            assert(forall|t: int, c: int|
                0 <= t < hexes@.len() && 0 <= c < 6 ==> vk[(#[trigger] v.tile_vertices[t][c]).0 as int]
                    == corner_key(hexes@[t], c));
            assert(forall|t: int, d: int|
                0 <= t < hexes@.len() && 0 <= d < 6 ==> ek[(#[trigger] v.tile_edges[t][d]).0 as int]
                    == edge_key(hexes@[t], d));
            assert forall|e: int| 0 <= e < ek.len() implies #[trigger] v.endpoints_at_origin(hexes@, e) by {
                let j = choose|j: int|
                    0 <= j < edge_keys(list@).len() && edge_keys(list@)[j] == ek[e] && (forall|i: int|
                        0 <= i < j ==> edge_keys(list@)[i] != ek[e]) && ordered_pair(
                        v.tile_vertices[j / 6][(j % 6 + 5) % 6],
                        v.tile_vertices[j / 6][j % 6],
                        v.edges_endpoints[e],
                    );
                assert(first_at(edge_keys(hexes@), ek[e], j));
            }
            assert(v.built_from(hexes@));
        }
        topology
    }

    pub fn hexes(&self) -> (r: &[Hex])
        ensures
            r@ == self@.hexes,
    {
        self.hexes.as_slice()
    }

    pub fn tile_vertices(&self) -> (r: &[[VertexId; 6]])
        ensures
            r@ == self@.tile_vertices,
    {
        self.tile_vertices.as_slice()
    }

    pub fn tile_edges(&self) -> (r: &[[EdgeId; 6]])
        ensures
            r@ == self@.tile_edges,
    {
        self.tile_edges.as_slice()
    }

    pub fn edges_endpoints(&self) -> (r: &[[VertexId; 2]])
        ensures
            r@ == self@.edges_endpoints,
    {
        self.edges_endpoints.as_slice()
    }

    pub fn vertex_count(&self) -> (n: usize)
        ensures
            n == self@.vertex_count,
    {
        self.vertex_count
    }

    pub fn edge_count(&self) -> (n: usize)
        ensures
            n == self@.edge_count,
    {
        self.edge_count
    }

    /// The edges that touch `vertex`, in increasing order.
    pub fn connected_edges(&self, vertex: VertexId) -> (r: Vec<EdgeId>)
        ensures
            r@ == connected(self@, vertex),
    {
        let mut r: Vec<EdgeId> = Vec::new();
        let mut e: usize = 0;
        while e < self.edges_endpoints.len()
            invariant
                0 <= e <= self.edges_endpoints@.len(),
                r@ == edges_at(self@, vertex, e as int),
            decreases self.edges_endpoints@.len() - e,
        {
            let ends = self.edges_endpoints[e];
            if ends[0] == vertex || ends[1] == vertex {
                r.push(EdgeId(e));
            }
            e = e + 1;
        }
        proof {
            use_type_invariant(self);
        }
        r
    }

    /// The vertices one edge away from `vertex`.
    pub fn vertex_neighbors(&self, vertex: VertexId) -> (r: Vec<VertexId>)
        ensures
            r@ == neighbors(self@, vertex),
    {
        let edges = self.connected_edges(vertex);
        let mut r: Vec<VertexId> = Vec::new();
        let mut i: usize = 0;
        proof {
            use_type_invariant(self);
            lemma_edges_at_bounded(self@, vertex, self@.edge_count as int);
        }
        while i < edges.len()
            invariant
                0 <= i <= edges@.len(),
                edges@ == connected(self@, vertex),
                self@.edges_endpoints.len() == self@.edge_count,
                self.edges_endpoints@ == self@.edges_endpoints,
                forall|k: int| 0 <= k < edges@.len() ==> (#[trigger] edges@[k]).0 < self@.edge_count,
                r@ == neighbors(self@, vertex).take(i as int),
            decreases edges@.len() - i,
        {
            let ends = self.edges_endpoints[edges[i].0];
            let other = if ends[0] == vertex {
                ends[1]
            } else {
                ends[0]
            };
            r.push(other);
            i = i + 1;
            assert(r@ =~= neighbors(self@, vertex).take(i as int));
        }
        assert(neighbors(self@, vertex).take(edges@.len() as int) =~= neighbors(self@, vertex));
        r
    }

    /// Every pair of tiles whose hexagons touch, each pair once, smaller
    /// tile first, in lexicographic order.
    pub fn adjacent_tile_pairs(&self) -> (r: Vec<(TileId, TileId)>)
        ensures
            forall|a: usize, b: usize|
                #[trigger] r@.contains((TileId(a), TileId(b))) <==> 0 <= a < b
                    < self@.hexes.len() && hex_adjacent(self@.hexes[a as int], self@.hexes[b as int]),
            forall|i: int, j: int| 0 <= i < j < r@.len() ==> pair_lt(r@[i], r@[j]),
    {
        proof {
            use_type_invariant(self);
        }
        let n = self.hexes.len();
        let mut r: Vec<(TileId, TileId)> = Vec::new();
        let mut a: usize = 0;
        while a < n
            invariant
                n == self@.hexes.len(),
                self.hexes@ == self@.hexes,
                0 <= a <= n,
                forall|x: usize, y: usize|
                    #[trigger] r@.contains((TileId(x), TileId(y))) <==> 0 <= x < y < n && x < a
                        && hex_adjacent(self@.hexes[x as int], self@.hexes[y as int]),
                forall|k: int| 0 <= k < r@.len() ==> (#[trigger] r@[k]).0.0 < a && r@[k].0.0 < r@[k].1.0,
                forall|i: int, j: int| 0 <= i < j < r@.len() ==> pair_lt(r@[i], r@[j]),
            decreases n - a,
        {
            let mut b: usize = a + 1;
            while b < n
                invariant
                    n == self@.hexes.len(),
                    self.hexes@ == self@.hexes,
                    0 <= a < n,
                    a + 1 <= b <= n,
                    forall|x: usize, y: usize|
                        #[trigger] r@.contains((TileId(x), TileId(y))) <==> 0 <= x < y < n
                            && (x < a || (x == a && y < b)) && hex_adjacent(
                            self@.hexes[x as int],
                            self@.hexes[y as int],
                        ),
                    forall|k: int|
                        0 <= k < r@.len() ==> ((#[trigger] r@[k]).0.0 < a || (r@[k].0.0 == a
                            && r@[k].1.0 < b)) && r@[k].0.0 < r@[k].1.0,
                    forall|i: int, j: int| 0 <= i < j < r@.len() ==> pair_lt(r@[i], r@[j]),
                decreases n - b,
            {
                let adjacent = self.touching(a, b);
                if adjacent {
                    let ghost old_r = r@;
                    r.push((TileId(a), TileId(b)));
                    proof {
                        assert forall|x: usize, y: usize|
                            #[trigger] r@.contains((TileId(x), TileId(y))) <==> 0 <= x < y < n
                                && (x < a || (x == a && y < b + 1)) && hex_adjacent(
                                self@.hexes[x as int],
                                self@.hexes[y as int],
                            ) by {
                            if r@.contains((TileId(x), TileId(y))) {
                                let k = choose|k: int|
                                    0 <= k < r@.len() && r@[k] == (TileId(x), TileId(y));
                                if k < old_r.len() {
                                    assert(old_r[k] == r@[k]);
                                    assert(old_r.contains((TileId(x), TileId(y))));
                                }
                            }
                            if 0 <= x < y < n && (x < a || (x == a && y < b + 1)) && hex_adjacent(
                                self@.hexes[x as int],
                                self@.hexes[y as int],
                            ) {
                                if x < a || (x == a && y < b) {
                                    assert(old_r.contains((TileId(x), TileId(y))));
                                    let k = choose|k: int|
                                        0 <= k < old_r.len() && old_r[k] == (TileId(x), TileId(y));
                                    assert(r@[k] == old_r[k]);
                                } else {
                                    assert(r@[old_r.len() as int] == (TileId(a), TileId(b)));
                                }
                            }
                        }
                    }
                } else {
                    proof {
                        assert forall|x: usize, y: usize|
                            #[trigger] r@.contains((TileId(x), TileId(y))) <==> 0 <= x < y < n
                                && (x < a || (x == a && y < b + 1)) && hex_adjacent(
                                self@.hexes[x as int],
                                self@.hexes[y as int],
                            ) by {
                            if r@.contains((TileId(x), TileId(y))) {
                                let k = choose|k: int|
                                    0 <= k < r@.len() && r@[k] == (TileId(x), TileId(y));
                                assert(r@[k].0.0 < a || (r@[k].0.0 == a && r@[k].1.0 < b));
                            }
                        }
                    }
                }
                b = b + 1;
            }
            a = a + 1;
        }
        r
    }

    /// The hexagons of tiles `a` and `b` touch.
    fn touching(&self, a: usize, b: usize) -> (r: bool)
        requires
            a < self@.hexes.len(),
            b < self@.hexes.len(),
        ensures
            r == hex_adjacent(self@.hexes[a as int], self@.hexes[b as int]),
    {
        proof {
            use_type_invariant(self);
        }
        let ha = self.hexes[a];
        let hb = self.hexes[b];
        assert(hex_fits(ha) && hex_fits(hb));
        let dq = hb.q as i16 - ha.q as i16;
        let dr = hb.r as i16 - ha.r as i16;
        let r = (dq == 1 && dr == 0) || (dq == 1 && dr == -1) || (dq == 0 && dr == -1) || (dq == -1
            && dr == 0) || (dq == -1 && dr == 1) || (dq == 0 && dr == 1);
        proof {
            if r {
                let d: int = if dq == 1 && dr == 0 {
                    0
                } else if dq == 1 && dr == -1 {
                    1
                } else if dq == 0 && dr == -1 {
                    2
                } else if dq == -1 && dr == 0 {
                    3
                } else if dq == -1 && dr == 1 {
                    4
                } else {
                    5
                };
                assert(hb == hex_neighbor(ha, d));
            } else {
                assert forall|d: int| 0 <= d < 6 implies hb != #[trigger] hex_neighbor(ha, d) by {
                    if hb == hex_neighbor(ha, d) {
                        assert(hb.q == ((ha.q + dir_dq(d)) as i8));
                    }
                }
            }
        }
        r
    }
}

impl Topology {
    /// Every hexagon within `radius` steps of the centre, in increasing
    /// `(q, r)` order.
    pub fn hexagon(radius: i8) -> (hexes: Vec<Hex>)
        requires
            -127 <= radius <= 63,
        ensures
            forall|h: Hex| hexes@.contains(h) <==> in_hexagon(h, radius as int),
            forall|i: int, j: int| 0 <= i < j < hexes@.len() ==> hex_lt(hexes@[i], hexes@[j]),
    {
        let mut hexes: Vec<Hex> = Vec::new();
        let rad = radius as i16;
        let mut q: i16 = -rad;
        while q <= rad
            invariant
                rad == radius,
                -127 <= rad <= 63,
                -rad <= q || rad < 0,
                q <= rad + 1 || rad < 0,
                rad < 0 ==> q == -rad && hexes@.len() == 0,
                forall|h: Hex| hexes@.contains(h) <==> in_hexagon(h, rad as int) && h.q < q,
                forall|k: int| 0 <= k < hexes@.len() ==> (#[trigger] hexes@[k]).q < q,
                forall|i: int, j: int| 0 <= i < j < hexes@.len() ==> hex_lt(hexes@[i], hexes@[j]),
            decreases rad + 1 - q,
        {
            let mut r: i16 = -rad;
            while r <= rad
                invariant
                    rad == radius,
                    -127 <= rad <= 63,
                    -rad <= q <= rad,
                    -rad <= r <= rad + 1,
                    forall|h: Hex|
                        hexes@.contains(h) <==> in_hexagon(h, rad as int) && (h.q < q || (h.q == q
                            && h.r < r)),
                    forall|k: int|
                        0 <= k < hexes@.len() ==> (#[trigger] hexes@[k]).q < q || (hexes@[k].q == q
                            && hexes@[k].r < r),
                    forall|i: int, j: int| 0 <= i < j < hexes@.len() ==> hex_lt(hexes@[i], hexes@[j]),
                decreases rad + 1 - r,
            {
                let aq = if q < 0 { -q } else { q };
                let ar = if r < 0 { -r } else { r };
                let s = q + r;
                let as_ = if s < 0 { -s } else { s };
                if aq <= rad && ar <= rad && as_ <= rad {
                    let h = Hex::new(q as i8, r as i8);
                    let ghost old_hexes = hexes@;
                    hexes.push(h);
                    proof {
                        assert forall|g: Hex| hexes@.contains(g) <==> in_hexagon(g, rad as int) && (
                        g.q < q || (g.q == q && g.r < r + 1)) by {
                            if old_hexes.contains(g) {
                                let k = choose|k: int| 0 <= k < old_hexes.len() && old_hexes[k] == g;
                                assert(hexes@[k] == g);
                            }
                            if hexes@.contains(g) && g != h {
                                let k = choose|k: int| 0 <= k < hexes@.len() && hexes@[k] == g;
                                assert(k < old_hexes.len());
                                assert(old_hexes[k] == g);
                            }
                            if g == h {
                                assert(hexes@[old_hexes.len() as int] == g);
                            }
                        }
                    }
                } else {
                    proof {
                        assert forall|g: Hex| hexes@.contains(g) <==> in_hexagon(g, rad as int) && (
                        g.q < q || (g.q == q && g.r < r + 1)) by {
                            if g.q == q && g.r == r && in_hexagon(g, rad as int) {
                                assert(false);
                            }
                        }
                    }
                }
                r = r + 1;
            }
            q = q + 1;
        }
        proof {
            assert forall|h: Hex| hexes@.contains(h) <==> in_hexagon(h, radius as int) by {
                if in_hexagon(h, radius as int) {
                    assert(h.q <= rad);
                }
            }
        }
        hexes
    }

    /// The rings from distance `radius` inwards, each starting at
    /// `(-k, k)` and walking the six directions in turn, then the centre:
    /// the order in which number tokens are laid.
    pub fn spiral(radius: i8) -> (hexes: Vec<Hex>)
        requires
            radius <= 63,
        ensures
            hexes@ == spiral_of(radius as int),
    {
        let mut hexes: Vec<Hex> = Vec::new();
        let mut k: i8 = radius;
        while k > 0
            invariant
                k <= radius <= 63,
                hexes@ + spiral_of(k as int) == spiral_of(radius as int),
            decreases k,
        {
            let ghost before = hexes@;
            let mut h = Hex::new(-k, k);
            let mut i: usize = 0;
            while i < 6
                invariant
                    0 < k <= 63,
                    0 <= i <= 6,
                    hexes@ == before + ring(k as int).take(i * k),
                    i < 6 ==> h.q == ring_q(k as int, i as int, 0) && h.r == ring_r(k as int, i as int, 0),
                decreases 6 - i,
            {
                let mut s: i8 = 0;
                while s < k
                    invariant
                        0 < k <= 63,
                        0 <= i < 6,
                        0 <= s <= k,
                        hexes@ == before + ring(k as int).take(i * k + s),
                        h.q == ring_q(k as int, i as int, s as int),
                        h.r == ring_r(k as int, i as int, s as int),
                    decreases k - s,
                {
                    proof {
                        assert(i * k + s < 6 * k) by (nonlinear_arith)
                            requires
                                0 <= i < 6,
                                0 <= s < k,
                        ;
                        vstd::arithmetic::div_mod::lemma_fundamental_div_mod_converse(
                            i * k + s,
                            k as int,
                            i as int,
                            s as int,
                        );
                        assert(ring(k as int)[i * k + s] == h);
                        assert(ring(k as int).take(i * k + s + 1) =~= ring(k as int).take(i * k + s).push(h));
                    }
                    hexes.push(h);
                    assert(hexes@ =~= before + ring(k as int).take(i * k + s + 1));
                    h = h.neighbor(HexDirection::nth(i));
                    s = s + 1;
                }
                assert((i + 1) * k == i * k + k) by (nonlinear_arith);
                i = i + 1;
            }
            proof {
                assert(ring(k as int).take(6 * k) =~= ring(k as int));
                assert(hexes@ + spiral_of(k - 1) =~= before + spiral_of(k as int));
            }
            k = k - 1;
        }
        hexes.push(Hex::new(0, 0));
        assert(hexes@ =~= spiral_of(radius as int));
        hexes
    }

    /// Three tiles meeting at a point: the centre and its neighbours in
    /// directions 0 and 1.
    pub fn test_topology() -> (topology: Topology)
        ensures
            topology@.built_from(
                seq![Hex { q: 0, r: 0 }, Hex { q: 1, r: 0 }, Hex { q: 1, r: -1i8 }],
            ),
    {
        let mut hexes: Vec<Hex> = Vec::new();
        hexes.push(Hex::new(0, 0));
        let first = hexes[0].neighbor(HexDirection::nth(0));
        hexes.push(first);
        let second = hexes[0].neighbor(HexDirection::nth(1));
        hexes.push(second);
        assert(hexes@ =~= seq![Hex { q: 0, r: 0 }, Hex { q: 1, r: 0 }, Hex { q: 1, r: -1i8 }]);
        Topology::from_hexes(hexes.as_slice())
    }

    /// The standard board: the hexagon of radius 2.
    pub fn standard() -> (topology: Topology)
        ensures
            forall|h: Hex| topology@.hexes.contains(h) <==> in_hexagon(h, 2),
            forall|i: int, j: int|
                0 <= i < j < topology@.hexes.len() ==> hex_lt(topology@.hexes[i], topology@.hexes[j]),
            topology@.built_from(topology@.hexes),
    {
        let hexes = Topology::hexagon(2);
        proof {
            assert forall|i: int| 0 <= i < hexes@.len() implies hex_fits(#[trigger] hexes@[i]) by {
                assert(hexes@.contains(hexes@[i]));
                assert(in_hexagon(hexes@[i], 2));
            }
        }
        Topology::from_hexes(hexes.as_slice())
    }
}

/// Two corners with the same key are the same vertex.
proof fn lemma_same_corner(t: TopologyView, hexes: Seq<Hex>, a: int, c: int, b: int, k: int)
    requires
        t.built_from(hexes),
        0 <= a < hexes.len(),
        0 <= b < hexes.len(),
        0 <= c < 6,
        0 <= k < 6,
        corner_key(hexes[a], c) == corner_key(hexes[b], k),
    ensures
        t.tile_vertices[a][c] == t.tile_vertices[b][k],
{
    let vk = dedup(corner_keys(hexes));
    lemma_dedup(corner_keys(hexes));
    let x = t.tile_vertices[a][c];
    let y = t.tile_vertices[b][k];
    assert(vk[x.0 as int] == vk[y.0 as int]);
    if x.0 < y.0 {
        assert(vk[x.0 as int] != vk[y.0 as int]);
    } else if y.0 < x.0 {
        assert(vk[y.0 as int] != vk[x.0 as int]);
    }
}

/// Every tile agrees on the ends of each of its sides: the endpoints of the
/// edge on side `d` of a tile are the tile's corners on either side of it,
/// whichever tile the edge was first met on.
pub proof fn law_tiles_agree_on_edge_endpoints(t: TopologyView, hexes: Seq<Hex>, tile: int, d: int)
    requires
        t.built_from(hexes),
        0 <= tile < hexes.len(),
        0 <= d < 6,
    ensures
        ordered_pair(
            t.tile_vertices[tile][(d + 5) % 6],
            t.tile_vertices[tile][d],
            t.edges_endpoints[t.tile_edges[tile][d].0 as int],
        ),
{
    let ek = dedup(edge_keys(hexes));
    let e = t.tile_edges[tile][d].0 as int;
    assert(ek[e] == edge_key(hexes[tile], d));
    assert(t.endpoints_at_origin(hexes, e));
    let j = choose|j: int|
        first_at(edge_keys(hexes), dedup(edge_keys(hexes))[e], j) && ordered_pair(
            t.tile_vertices[j / 6][(j % 6 + 5) % 6],
            t.tile_vertices[j / 6][j % 6],
            t.edges_endpoints[e],
        );
    let o = j / 6;
    let k = j % 6;
    assert(0 <= o < hexes.len()) by {
        assert(j < 6 * hexes.len());
    }
    assert(edge_key(hexes[o], k) == edge_key(hexes[tile], d));
    lemma_edge_key_sides(hexes[tile], d, hexes[o], k);
    if hexes[o] == hexes[tile] && k == d {
        lemma_same_corner(t, hexes, tile, (d + 5) % 6, o, (k + 5) % 6);
        lemma_same_corner(t, hexes, tile, d, o, k);
    } else {
        lemma_corners_across_side(hexes[tile], d);
        lemma_same_corner(t, hexes, tile, d, o, (k + 5) % 6);
        lemma_same_corner(t, hexes, tile, (d + 5) % 6, o, k);
    }
}

/// An edge joins two different vertices.
pub proof fn law_edges_join_two_vertices(t: TopologyView, hexes: Seq<Hex>, e: int)
    requires
        t.built_from(hexes),
        0 <= e < t.edge_count,
    ensures
        t.edges_endpoints[e][0] != t.edges_endpoints[e][1],
{
    let ek = dedup(edge_keys(hexes));
    assert(t.endpoints_at_origin(hexes, e));
    let j = choose|j: int|
        first_at(edge_keys(hexes), dedup(edge_keys(hexes))[e], j) && ordered_pair(
            t.tile_vertices[j / 6][(j % 6 + 5) % 6],
            t.tile_vertices[j / 6][j % 6],
            t.edges_endpoints[e],
        );
    let o = j / 6;
    let k = j % 6;
    assert(0 <= o < hexes.len()) by {
        assert(j < 6 * hexes.len());
    }
    lemma_side_corners_differ(hexes[o], k);
    let vk = dedup(corner_keys(hexes));
    assert(vk[t.tile_vertices[o][(k + 5) % 6].0 as int] == corner_key(hexes[o], (k + 5) % 6));
    assert(vk[t.tile_vertices[o][k].0 as int] == corner_key(hexes[o], k));
}

/// The edges listed at a vertex among the first `n` are all below `n`.
pub proof fn lemma_edges_at_bounded(t: TopologyView, v: VertexId, n: int)
    requires
        0 <= n,
    ensures
        forall|k: int| 0 <= k < edges_at(t, v, n).len() ==> (#[trigger] edges_at(t, v, n)[k]).0 < n,
    decreases n,
{
    if n > 0 {
        lemma_edges_at_bounded(t, v, n - 1);
        let p = edges_at(t, v, n - 1);
        if touches(t, n - 1, v) {
            assert(edges_at(t, v, n) == p.push(EdgeId((n - 1) as usize)));
            assert forall|k: int| 0 <= k < edges_at(t, v, n).len() implies (#[trigger] edges_at(
                t,
                v,
                n,
            )[k]).0 < n by {
                if k < p.len() {
                    assert(edges_at(t, v, n)[k] == p[k]);
                }
            }
        }
    }
}

} // verus!
