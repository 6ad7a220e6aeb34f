use voropp::graph::rings_are_polyhedral;
use voropp::rings::rings_are_rotation;
use voropp::{CellGraph, Side};

fn tetrahedron() -> Vec<Vec<usize>> {
    vec![vec![1, 3, 2], vec![0, 2, 3], vec![0, 3, 1], vec![0, 1, 2]]
}

fn octahedron() -> Vec<Vec<usize>> {
    vec![
        vec![2, 5, 3, 4],
        vec![2, 4, 3, 5],
        vec![0, 4, 1, 5],
        vec![0, 5, 1, 4],
        vec![0, 3, 1, 2],
        vec![0, 2, 1, 3],
    ]
}

#[test]
fn tetrahedron_has_four_of_each_and_six_edges() {
    let g = CellGraph::from_rings(tetrahedron()).expect("a polyhedron");
    assert_eq!(g.vertex_count(), 4);
    assert_eq!(g.edge_count(), 6);
    assert_eq!(g.face_count(), 4);
    assert_eq!(g.face_vertices(), vec![vec![0, 1, 2], vec![0, 3, 1], vec![0, 2, 3], vec![1, 3, 2]]);
    assert_eq!(g.rings(), &tetrahedron());
}

#[test]
fn octahedron_has_eight_triangles() {
    let g = CellGraph::from_rings(octahedron()).expect("a polyhedron");
    assert_eq!(g.vertex_count(), 6);
    assert_eq!(g.edge_count(), 12);
    assert_eq!(g.face_count(), 8);
    assert_eq!(
        g.face_vertices(),
        vec![
            vec![0, 2, 4],
            vec![0, 5, 2],
            vec![0, 3, 5],
            vec![0, 4, 3],
            vec![1, 2, 5],
            vec![1, 4, 2],
            vec![1, 3, 4],
            vec![1, 5, 3],
        ]
    );
}

#[test]
fn no_vertices_are_no_graph() {
    assert!(!rings_are_rotation(&Vec::new()));
    assert!(CellGraph::from_rings(Vec::new()).is_none());
}

#[test]
fn a_vertex_needs_three_neighbours() {
    let rings = vec![vec![1, 2], vec![0, 2], vec![0, 1]];
    assert!(!rings_are_rotation(&rings));
    assert!(CellGraph::from_rings(rings).is_none());
}

#[test]
fn a_neighbour_must_be_a_vertex() {
    let mut rings = tetrahedron();
    rings[0][1] = 4;
    assert!(!rings_are_rotation(&rings));
    assert!(CellGraph::from_rings(rings).is_none());
}

#[test]
fn a_vertex_is_not_its_own_neighbour() {
    let mut rings = tetrahedron();
    rings[0][1] = 0;
    assert!(!rings_are_rotation(&rings));
}

#[test]
fn a_neighbour_stands_once_in_a_ring() {
    let mut rings = tetrahedron();
    rings[0] = vec![1, 3, 2, 1];
    assert!(!rings_are_rotation(&rings));
}

#[test]
fn an_edge_is_listed_at_both_ends() {
    let rings = vec![
        vec![1, 3, 2],
        vec![0, 2, 3],
        vec![0, 3, 1],
        vec![0, 1, 2],
        vec![0, 1, 2],
    ];
    assert!(!rings_are_rotation(&rings));
}

#[test]
fn rings_that_wind_the_wrong_way_are_no_polyhedron() {
    // the graph of the tetrahedron, with the ring of one corner turned over
    let rings = vec![vec![1, 2, 3], vec![0, 2, 3], vec![0, 3, 1], vec![0, 1, 2]];
    assert!(rings_are_rotation(&rings));
    assert!(!rings_are_polyhedral(&rings));
    assert!(CellGraph::from_rings(rings).is_none());
}

#[test]
fn a_copy_is_a_graph_of_its_own() {
    let g = CellGraph::from_rings(tetrahedron()).expect("a polyhedron");
    let mut twin = g.copy();
    let sides = vec![Side::Inside, Side::Inside, Side::Inside, Side::Outside];
    assert!(twin.try_cut(&sides));
    assert_eq!(twin.vertex_count(), 6);
    assert_eq!(g.vertex_count(), 4);
    assert_eq!(g.rings(), &tetrahedron());
}

#[test]
fn a_cut_that_leaves_no_polyhedron_is_not_made() {
    let i = Side::Inside;
    let p = Side::OnPlane;
    let o = Side::Outside;
    let rings = vec![
        vec![1, 4, 2],
        vec![3, 5, 0],
        vec![0, 6, 3],
        vec![2, 7, 1],
        vec![6, 0, 5],
        vec![4, 1, 7],
        vec![7, 2, 4],
        vec![5, 3, 6],
    ];
    let mut g = CellGraph::from_rings(rings.clone()).expect("a polyhedron");
    let sides = vec![i, i, i, i, p, o, o, p];
    assert!(!g.admits_cut(&sides));
    assert!(!g.try_cut(&sides));
    assert_eq!(g.rings(), &rings);
}

#[test]
fn corner_cut_off_a_tetrahedron() {
    let mut g = CellGraph::from_rings(tetrahedron()).expect("a polyhedron");
    let sides = vec![Side::Inside, Side::Inside, Side::Inside, Side::Outside];
    assert!(g.admits_cut(&sides));
    assert_eq!(g.origins(&sides), vec![(0, 0), (1, 1), (2, 2), (0, 3), (1, 3), (2, 3)]);
    g.cut(&sides);
    assert_eq!(g.vertex_count(), 6);
    assert_eq!(g.edge_count(), 9);
    assert_eq!(g.face_count(), 5);
    // every new vertex has three neighbours, every old one keeps its three
    assert!(g.rings().iter().all(|r| r.len() == 3));
}
