//! What every action on the board keeps: buildings keep their distance,
//! roads stay joined to their owner's buildings, and the points that the
//! buildings are worth.
use vstd::prelude::*;

use crate::board::building::kind_amount;
use crate::board::{
    building_check, first_occupied_at, owned_by, road_at, road_check, road_placement, BoardView,
    Building, BuildingKind,
};
use crate::game::GameStatus;
use crate::geometry::topology::{connected, edges_at, neighbors, touches, TopologyView};
use crate::geometry::{EdgeId, TileId, VertexId};
use crate::player::PlayerId;

verus! {

/// The distance rule holds: no edge joins two buildings.
pub open spec fn spaced(b: BoardView) -> bool {
    forall|e: int|
        0 <= e < b.topology.edge_count && (#[trigger] b.topology.edges_endpoints[e])[0]
            != b.topology.edges_endpoints[e][1] ==> !(b.buildings[b.topology.edges_endpoints[e][0].0 as int] is Some
            && b.buildings[b.topology.edges_endpoints[e][1].0 as int] is Some)
}

/// Edge `c` touches an end of edge `a`.
pub open spec fn links(t: TopologyView, a: int, c: int) -> bool {
    touches(t, c, t.edges_endpoints[a][0]) || touches(t, c, t.edges_endpoints[a][1])
}

/// `p` owns a building at an end of edge `e`.
pub open spec fn ends_at_building(b: BoardView, e: int, p: PlayerId) -> bool {
    owned_by(b, b.topology.edges_endpoints[e][0], p) || owned_by(b, b.topology.edges_endpoints[e][1], p)
}

/// Step `i` of `path` goes on to an edge that touches the one before.
pub open spec fn chain_step(t: TopologyView, path: Seq<int>, i: int) -> bool {
    links(t, path[i], path[i + 1])
}

/// `path` is a line of `p`'s roads, each touching the one before, that
/// starts at one of `p`'s buildings.
pub open spec fn road_chain(b: BoardView, p: PlayerId, path: Seq<int>) -> bool {
    &&& path.len() > 0
    &&& forall|i: int|
        0 <= i < path.len() ==> 0 <= #[trigger] path[i] < b.topology.edge_count && b.roads[path[i]] == Some(p)
    &&& ends_at_building(b, path[0], p)
    &&& forall|i: int| 0 <= i < path.len() - 1 ==> #[trigger] chain_step(b.topology, path, i)
}

/// The road on edge `e`, if any, is joined to one of its owner's buildings
/// by a line of its owner's roads.
pub open spec fn road_connected(b: BoardView, e: int) -> bool {
    match b.roads[e] {
        None => true,
        Some(p) => exists|path: Seq<int>| #[trigger] road_chain(b, p, path) && path.last() == e,
    }
}

/// Every road is joined to one of its owner's buildings by its owner's roads.
pub open spec fn roads_connected(b: BoardView) -> bool {
    forall|e: int| 0 <= e < b.topology.edge_count ==> #[trigger] road_connected(b, e)
}

/// The board once a road of `p` lies on `e`.
pub open spec fn with_road(b: BoardView, e: EdgeId, p: PlayerId) -> BoardView {
    BoardView { roads: b.roads.update(e.0 as int, Some(p)), ..b }
}

/// A line of roads stays a line when its roads stay and its first building stays.
proof fn lemma_chain_persists(b: BoardView, b2: BoardView, p: PlayerId, path: Seq<int>)
    requires
        road_chain(b, p, path),
        b2.topology == b.topology,
        forall|i: int| 0 <= i < path.len() ==> b2.roads[#[trigger] path[i]] == b.roads[path[i]],
        ends_at_building(b2, path[0], p),
    ensures
        road_chain(b2, p, path),
{
    assert forall|i: int| 0 <= i < path.len() - 1 implies #[trigger] chain_step(b2.topology, path, i) by {
        assert(chain_step(b.topology, path, i));
    }
}

/// A road that the rules accept is joined to one of its owner's buildings,
/// and every other road stays joined.
pub proof fn law_road_keeps_roads_connected(b: BoardView, s: GameStatus, e: EdgeId, p: PlayerId)
    requires
        b.wf(),
        roads_connected(b),
        road_check(b, s, e, p) is Ok,
    ensures
        roads_connected(with_road(b, e, p)),
{
    let b2 = with_road(b, e, p);
    let t = b.topology;
    let x0 = e.0 as int;
    assert forall|x: int| 0 <= x < b2.topology.edge_count implies #[trigger] road_connected(b2, x) by {
        if x == x0 {
            let ends = t.edges_endpoints[x0];
            if road_placement(s) {
                let path = seq![x0];
                assert(ends_at_building(b2, x0, p));
                assert(b2.roads[x]->0 == p && path.last() == x);
                assert(road_chain(b2, b2.roads[x]->0, path));
            } else {
                let i = if road_at(b, ends[0], p) {
                    0int
                } else {
                    1int
                };
                let f = choose|f: int|
                    0 <= f < t.edge_count && touches(t, f, ends[i]) && #[trigger] b.roads[f] == Some(p);
                assert(road_connected(b, f));
                let pf = choose|path: Seq<int>| #[trigger] road_chain(b, p, path) && path.last() == f;
                assert forall|k: int| 0 <= k < pf.len() implies b2.roads[#[trigger] pf[k]] == b.roads[pf[k]] by {
                    assert(b.roads[pf[k]] == Some(p));
                }
                lemma_chain_persists(b, b2, p, pf);
                let path = pf.push(x0);
                assert(links(t, f, x0));
                assert forall|k: int| 0 <= k < path.len() implies 0 <= #[trigger] path[k] < b2.topology.edge_count
                    && b2.roads[path[k]] == Some(p) by {
                    if k < pf.len() {
                        assert(path[k] == pf[k]);
                    }
                }
                assert forall|k: int| 0 <= k < path.len() - 1 implies #[trigger] chain_step(b2.topology, path, k) by {
                    if k < pf.len() - 1 {
                        assert(chain_step(b2.topology, pf, k));
                        assert(path[k] == pf[k] && path[k + 1] == pf[k + 1]);
                    } else {
                        assert(path[k] == f && path[k + 1] == x0);
                    }
                }
                assert(road_chain(b2, p, path));
                assert(b2.roads[x] == Some(p) && path.last() == x);
            }
        } else {
            if let Some(q) = b.roads[x] {
                assert(road_connected(b, x));
                let px = choose|path: Seq<int>| #[trigger] road_chain(b, q, path) && path.last() == x;
                assert forall|k: int| 0 <= k < px.len() implies b2.roads[#[trigger] px[k]] == b.roads[px[k]] by {
                    assert(b.roads[px[k]] == Some(q));
                }
                lemma_chain_persists(b, b2, q, px);
                assert(b2.roads[x] == Some(q));
            }
        }
    }
}

/// Buildings only come, or change kind under the same owner: every road
/// stays joined to its owner's buildings.
pub proof fn lemma_building_keeps_roads_connected(b: BoardView, v: VertexId, bld: Building)
    requires
        b.wf(),
        roads_connected(b),
        v.0 < b.buildings.len(),
        b.buildings[v.0 as int] matches Some(old_bld) ==> old_bld.owner == bld.owner,
    ensures
        roads_connected(BoardView { buildings: b.buildings.update(v.0 as int, Some(bld)), ..b }),
{
    let b2 = BoardView { buildings: b.buildings.update(v.0 as int, Some(bld)), ..b };
    let t = b.topology;
    assert forall|x: int| 0 <= x < b2.topology.edge_count implies #[trigger] road_connected(b2, x) by {
        if let Some(q) = b.roads[x] {
            assert(road_connected(b, x));
            let px = choose|path: Seq<int>| #[trigger] road_chain(b, q, path) && path.last() == x;
            let ends = t.edges_endpoints[px[0]];
            if owned_by(b, ends[0], q) {
                assert(owned_by(b2, ends[0], q));
            } else {
                assert(owned_by(b2, ends[1], q));
            }
            lemma_chain_persists(b, b2, q, px);
        }
    }
}

/// Moving the robber leaves every road joined as it was.
pub proof fn lemma_robber_keeps_roads_connected(b: BoardView, t: TileId)
    requires
        roads_connected(b),
    ensures
        roads_connected(BoardView { robber: t, ..b }),
{
    let b2 = BoardView { robber: t, ..b };
    assert forall|x: int| 0 <= x < b2.topology.edge_count implies #[trigger] road_connected(b2, x) by {
        if let Some(q) = b.roads[x] {
            assert(road_connected(b, x));
            let px = choose|path: Seq<int>| #[trigger] road_chain(b, q, path) && path.last() == x;
            lemma_chain_persists(b, b2, q, px);
        }
    }
}

/// The victory points a building gives `p`: one for a settlement, two for a
/// city, none for another player's building.
pub open spec fn building_points(o: Option<Building>, p: PlayerId) -> int {
    match o {
        Some(bld) => if bld.owner == p {
            kind_amount(bld.kind) as int
        } else {
            0
        },
        None => 0,
    }
}

/// The points that `p`'s buildings among the first `n` vertices give.
pub open spec fn points(bs: Seq<Option<Building>>, p: PlayerId, n: int) -> int
    decreases n,
{
    if n <= 0 {
        0
    } else {
        points(bs, p, n - 1) + building_points(bs[n - 1], p)
    }
}

/// Replacing the building on one vertex changes the points by the
/// difference between the two.
pub proof fn lemma_points_update(bs: Seq<Option<Building>>, v: int, x: Option<Building>, p: PlayerId, n: int)
    requires
        0 <= v < bs.len(),
        0 <= n <= bs.len(),
    ensures
        points(bs.update(v, x), p, n) == points(bs, p, n) + (if v < n {
            building_points(x, p) - building_points(bs[v], p)
        } else {
            0
        }),
    decreases n,
{
    if n > 0 {
        lemma_points_update(bs, v, x, p, n - 1);
    }
}

/// A board without buildings gives nobody a point.
pub proof fn lemma_points_none(bs: Seq<Option<Building>>, p: PlayerId, n: int)
    requires
        0 <= n <= bs.len(),
        forall|i: int| 0 <= i < bs.len() ==> #[trigger] bs[i] is None,
    ensures
        points(bs, p, n) == 0,
    decreases n,
{
    if n > 0 {
        lemma_points_none(bs, p, n - 1);
    }
}

/// The board once a settlement of `p` stands on `v`.
pub open spec fn with_settlement(b: BoardView, v: VertexId, p: PlayerId) -> BoardView {
    BoardView {
        buildings: b.buildings.update(v.0 as int, Some(Building { kind: BuildingKind::Settlement, owner: p })),
        ..b
    }
}

/// Every edge of the first `n` that touches `v` is listed.
proof fn lemma_edges_at_complete(t: TopologyView, v: VertexId, n: int, e: int)
    requires
        0 <= e < n,
        touches(t, e, v),
    ensures
        exists|k: int| 0 <= k < edges_at(t, v, n).len() && #[trigger] edges_at(t, v, n)[k] == EdgeId(e as usize),
    decreases n,
{
    if e < n - 1 {
        lemma_edges_at_complete(t, v, n - 1, e);
        let k = choose|k: int| 0 <= k < edges_at(t, v, n - 1).len() && #[trigger] edges_at(t, v, n - 1)[k] == EdgeId(e as usize);
        if touches(t, n - 1, v) {
            assert(edges_at(t, v, n)[k] == edges_at(t, v, n - 1)[k]);
        }
        assert(edges_at(t, v, n)[k] == EdgeId(e as usize));
    } else {
        let k = edges_at(t, v, n - 1).len() as int;
        assert(edges_at(t, v, n)[k] == EdgeId(e as usize));
    }
}

/// When some vertex of `vs` holds a building, one of them is the first.
proof fn lemma_first_occupied_exists(b: BoardView, vs: Seq<VertexId>, i: int)
    requires
        0 <= i < vs.len(),
        b.buildings[vs[i].0 as int] is Some,
    ensures
        exists|j: int| first_occupied_at(b, vs, j),
    decreases i,
{
    if exists|k: int| 0 <= k < i && #[trigger] b.buildings[vs[k].0 as int] is Some {
        let k = choose|k: int| 0 <= k < i && #[trigger] b.buildings[vs[k].0 as int] is Some;
        lemma_first_occupied_exists(b, vs, k);
    } else {
        assert(first_occupied_at(b, vs, i));
    }
}

/// A settlement that the rules accept keeps the distance rule: no two
/// buildings ever stand at the two ends of one edge.
pub proof fn law_settlement_keeps_spacing(b: BoardView, s: GameStatus, v: VertexId, p: PlayerId)
    requires
        b.wf(),
        spaced(b),
        building_check(b, s, v, p) is Ok,
    ensures
        spaced(with_settlement(b, v, p)),
{
    let b2 = with_settlement(b, v, p);
    let t = b.topology;
    let ns = neighbors(t, v);
    assert forall|e: int|
        0 <= e < b2.topology.edge_count && (#[trigger] b2.topology.edges_endpoints[e])[0]
            != b2.topology.edges_endpoints[e][1] implies !(b2.buildings[b2.topology.edges_endpoints[e][0].0 as int] is Some
            && b2.buildings[b2.topology.edges_endpoints[e][1].0 as int] is Some) by {
        let u = t.edges_endpoints[e][0];
        let w = t.edges_endpoints[e][1];
        if u == v || w == v {
            let other = if u == v { w } else { u };
            lemma_edges_at_complete(t, v, t.edge_count as int, e);
            let k = choose|k: int|
                0 <= k < connected(t, v).len() && #[trigger] connected(t, v)[k] == EdgeId(e as usize);
            assert(connected(t, v)[k].0 as int == e);
            assert(ns[k] == other);
            if b.buildings[other.0 as int] is Some {
                lemma_first_occupied_exists(b, ns, k);
                assert(false);
            }
        }
    }
}

/// Turning a building into a city keeps the distance rule.
pub proof fn lemma_upgrade_keeps_spacing(b: BoardView, v: VertexId, bld: Building)
    requires
        b.wf(),
        spaced(b),
        v.0 < b.buildings.len(),
        b.buildings[v.0 as int] is Some,
    ensures
        spaced(BoardView { buildings: b.buildings.update(v.0 as int, Some(bld)), ..b }),
{
    let b2 = BoardView { buildings: b.buildings.update(v.0 as int, Some(bld)), ..b };
    assert forall|e: int|
        0 <= e < b2.topology.edge_count && (#[trigger] b2.topology.edges_endpoints[e])[0]
            != b2.topology.edges_endpoints[e][1] implies !(b2.buildings[b2.topology.edges_endpoints[e][0].0 as int] is Some
            && b2.buildings[b2.topology.edges_endpoints[e][1].0 as int] is Some) by {
        assert(b.topology.edges_endpoints[e] == b2.topology.edges_endpoints[e]);
    }
}

} // verus!
