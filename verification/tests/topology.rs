use catan::geometry::ConnectedEdges;
use catan::{EdgeId, Hex, Topology, VertexId};

#[test]
fn test_from_hexes_radius_2() {
    let hexes = Topology::hexagon(2);
    let topo = Topology::from_hexes(&hexes);
    assert_eq!(topo.tile_vertices().len(), 19);
    assert_eq!(topo.vertex_count(), 54);
    assert_eq!(topo.edge_count(), 72);
}

#[test]
fn test_from_hexes_radius_3() {
    let hexes = Topology::hexagon(3);
    let topo = Topology::from_hexes(&hexes);
    assert_eq!(topo.tile_vertices().len(), 37);
    assert_eq!(topo.vertex_count(), 96);
    assert_eq!(topo.edge_count(), 132);
}

#[test]
fn test_hexagon_radius_2() {
    let hexes = Topology::hexagon(2);
    println!("{:?}", hexes);
    assert_eq!(hexes.len(), 19);
}

#[test]
fn test_hexagon_radius_1() {
    let hexes = Topology::hexagon(1);
    println!("{:?}", hexes);
    assert_eq!(hexes.len(), 7);
}

#[test]
fn test_edges_endpoints() {
    let hexes = Topology::hexagon(2);
    let topo = Topology::from_hexes(&hexes);
    assert_eq!(topo.edges_endpoints().len(), topo.edge_count());
    let topo = Topology::from_hexes(&[Hex::new(0, 0)]);
    assert_eq!(
        topo.edges_endpoints().to_vec(),
        vec![
            [VertexId::new(0), VertexId::new(5)],
            [VertexId::new(0), VertexId::new(1)],
            [VertexId::new(1), VertexId::new(2)],
            [VertexId::new(2), VertexId::new(3)],
            [VertexId::new(3), VertexId::new(4)],
            [VertexId::new(4), VertexId::new(5)],
        ]
    );
}

#[test]
fn every_vertex_has_two_or_three_edges() {
    let topo = Topology::standard();
    let mut degree = vec![0usize; topo.vertex_count()];
    for e in topo.edges_endpoints() {
        assert_ne!(e[0], e[1], "une arête ne peut pas relier un sommet à lui-même");
        for v in e {
            degree[v.value()] += 1;
        }
    }
    assert!(degree.iter().all(|&d| d == 2 || d == 3));
    assert_eq!(degree.iter().filter(|&&d| d == 2).count(), 18);
    assert_eq!(degree.iter().filter(|&&d| d == 3).count(), 36);
}

#[test]
fn every_tile_agrees_on_edge_endpoints() {
    let topo = Topology::standard();
    for (tile, edges) in topo.tile_edges().iter().enumerate() {
        let vertices = topo.tile_vertices()[tile];
        for dir in 0..6 {
            let mut expected = [vertices[(dir + 5) % 6], vertices[dir]];
            expected.sort();
            assert_eq!(
                topo.edges_endpoints()[edges[dir].value()],
                expected,
                "tuile {tile}, direction {dir}"
            );
        }
    }
}

#[test]
fn test_connected_edges() {
    let topo = Topology::from_hexes(&Topology::spiral(2));
    let mut edges = VertexId::new(0).connected_edges(&topo);
    edges.sort();
    assert_eq!(edges, vec![EdgeId::new(0), EdgeId::new(1), EdgeId::new(8)]);
}
