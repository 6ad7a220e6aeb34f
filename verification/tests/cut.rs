use voropp::clip::Side;
use voropp::cut::clip_rings;
use voropp::graph::CellGraph;

fn box_rings() -> Vec<Vec<usize>> {
    vec![
        vec![1, 4, 2],
        vec![3, 5, 0],
        vec![0, 6, 3],
        vec![2, 7, 1],
        vec![6, 0, 5],
        vec![4, 1, 7],
        vec![7, 2, 4],
        vec![5, 3, 6],
    ]
}

#[test]
fn corner_of_a_box_cut_off() {
    // the plane x + y + z = 1.5 against the unit box
    let i = Side::Inside;
    let o = Side::Outside;
    let sides = vec![i, i, i, o, i, o, o, o];
    let rings = clip_rings(&box_rings(), &sides);
    let g = CellGraph::from_rings(rings).expect("a polyhedron");
    assert_eq!(g.vertex_count(), 10);
    assert_eq!(g.edge_count(), 15);
    assert_eq!(g.face_count(), 7);
    assert_eq!(
        g.face_vertices(),
        vec![
            vec![0, 1, 4, 7, 2],
            vec![0, 3, 9, 5, 1],
            vec![0, 2, 6, 8, 3],
            vec![1, 5, 4],
            vec![2, 7, 6],
            vec![3, 8, 9],
            vec![4, 5, 9, 8, 6, 7],
        ]
    );
}

#[test]
fn box_cut_through_four_corners_is_a_prism() {
    // the plane x + y = 1 against the unit box
    let i = Side::Inside;
    let p = Side::OnPlane;
    let o = Side::Outside;
    let sides = vec![i, p, p, o, i, p, p, o];
    let rings = clip_rings(&box_rings(), &sides);
    let g = CellGraph::from_rings(rings).expect("a polyhedron");
    assert_eq!(g.vertex_count(), 6);
    assert_eq!(g.edge_count(), 9);
    assert_eq!(
        g.face_vertices(),
        vec![vec![0, 1, 2], vec![0, 3, 4, 1], vec![0, 2, 5, 3], vec![1, 4, 5, 2], vec![3, 5, 4]]
    );
}

#[test]
fn box_cut_through_three_corners_is_a_tetrahedron() {
    // the plane x + y + z = 1 against the unit box
    let i = Side::Inside;
    let p = Side::OnPlane;
    let o = Side::Outside;
    let sides = vec![i, p, p, o, p, o, o, o];
    let rings = clip_rings(&box_rings(), &sides);
    let g = CellGraph::from_rings(rings).expect("a polyhedron");
    assert_eq!(g.face_vertices(), vec![vec![0, 1, 2], vec![0, 3, 1], vec![0, 2, 3], vec![1, 3, 2]]);
}
