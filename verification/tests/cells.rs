use voropp::{Side, VoronoiCell, VoronoiCellBase, VoronoiCellNeighbor};

fn sides(text: &str) -> Vec<Side> {
    text.chars()
        .map(|c| match c {
            'i' => Side::Inside,
            'p' => Side::OnPlane,
            _ => Side::Outside,
        })
        .collect()
}

#[test]
fn box_has_six_faces_of_four_corners() {
    let cell = VoronoiCell::init();
    assert_eq!(cell.number_of_faces(), 6);
    assert_eq!(cell.number_of_edges(), 12);
    assert_eq!(cell.number_of_vertices(), 8);
    assert_eq!(
        cell.face_vertices(),
        vec![
            vec![0, 1, 3, 2],
            vec![0, 4, 5, 1],
            vec![0, 2, 6, 4],
            vec![1, 5, 7, 3],
            vec![2, 3, 7, 6],
            vec![4, 6, 7, 5],
        ]
    );
    assert!(!cell.is_eliminated());
}

#[test]
fn octahedron_has_eight_faces_of_three_corners() {
    let cell = VoronoiCell::init_octahedron();
    assert_eq!(cell.number_of_faces(), 8);
    assert_eq!(cell.number_of_edges(), 12);
    assert_eq!(cell.number_of_vertices(), 6);
    assert!(cell.face_vertices().iter().all(|f| f.len() == 3));
}

#[test]
fn tetrahedron_has_four_faces() {
    let cell = VoronoiCell::init_tetrahedron();
    assert_eq!(cell.number_of_faces(), 4);
    assert_eq!(cell.number_of_edges(), 6);
    assert_eq!(cell.number_of_vertices(), 4);
    assert!(cell.face_vertices().iter().all(|f| f.len() == 3));
}

#[test]
fn starting_faces_have_labels_below_zero() {
    assert_eq!(VoronoiCellNeighbor::init().neighbors(), vec![-5, -3, -1, -2, -4, -6]);
    assert_eq!(VoronoiCellNeighbor::init_octahedron().neighbors(), vec![-1, -2, -3, -4, -5, -6, -7, -8]);
    assert_eq!(VoronoiCellNeighbor::init_tetrahedron().neighbors(), vec![-4, -3, -2, -1]);
}

#[test]
fn box_faces_are_labelled_by_direction() {
    // corner 4z + 2y + x: the face with the label -1 holds the corners with x = 0
    let cell = VoronoiCellNeighbor::init();
    let faces = cell.face_vertices();
    let ids = cell.neighbors();
    for (face, id) in faces.iter().zip(ids) {
        let (bit, value) = match id {
            -1 => (1, 0),
            -2 => (1, 1),
            -3 => (2, 0),
            -4 => (2, 2),
            -5 => (4, 0),
            _ => (4, 4),
        };
        assert!(face.iter().all(|v| v & bit == value));
    }
}

#[test]
fn plane_that_misses_the_cell_changes_nothing() {
    let mut cell = VoronoiCell::init();
    let before = cell.face_vertices();
    let s = sides("iiiiiiii");
    assert!(cell.admits_plane(&s));
    assert_eq!(cell.origins(&s), (0..8).map(|v| (v, v)).collect::<Vec<_>>());
    assert!(cell.plane(&s));
    assert_eq!(cell.face_vertices(), before);
    assert_eq!(cell.number_of_vertices(), 8);
}

#[test]
fn plane_through_a_face_changes_nothing() {
    let mut cell = VoronoiCell::init();
    let before = cell.face_vertices();
    assert!(cell.plane(&sides("ipipipip")));
    assert_eq!(cell.face_vertices(), before);
}

#[test]
fn plane_that_trims_a_corner_adds_a_face_and_two_vertices() {
    let mut cell = VoronoiCell::init();
    let s = sides("iiiiiiio");
    assert!(cell.admits_plane(&s));
    assert!(cell.plane(&s));
    assert_eq!(cell.number_of_faces(), 7);
    assert_eq!(cell.number_of_vertices(), 10);
    assert_eq!(cell.number_of_edges(), 15);
}

#[test]
fn same_plane_again_changes_nothing() {
    let mut cell = VoronoiCellNeighbor::init();
    let s = sides("iiioiooo");
    let from = cell.origins(&s);
    assert!(cell.nplane(&s, 7));
    let faces = cell.face_vertices();
    let ids = cell.neighbors();
    // the corners that stayed lie where they lay, the new ones on the plane
    let again: Vec<Side> = from.iter().map(|&(u, w)| if u == w { s[u] } else { Side::OnPlane }).collect();
    assert!(cell.admits_nplane(&again, 8));
    assert!(cell.nplane(&again, 8));
    assert_eq!(cell.face_vertices(), faces);
    assert_eq!(cell.neighbors(), ids);
}

#[test]
fn label_of_the_new_face_stands_once() {
    let mut cell = VoronoiCellNeighbor::init();
    assert!(cell.nplane(&sides("iiioiooo"), 123456));
    let ids = cell.neighbors();
    assert_eq!(ids.iter().filter(|&&id| id == 123456).count(), 1);
    assert_eq!(ids.len(), cell.number_of_faces() as usize);
    let mut sorted = ids.clone();
    sorted.sort();
    assert_eq!(sorted, vec![-6, -5, -4, -3, -2, -1, 123456]);
}

#[test]
fn face_that_is_cut_away_loses_its_label() {
    // the plane x = 0.5 keeps the half of the box with x = 0
    let mut cell = VoronoiCellNeighbor::init();
    assert!(cell.nplane(&sides("ioioioio"), 9));
    let mut ids = cell.neighbors();
    ids.sort();
    assert_eq!(ids, vec![-6, -5, -4, -3, -1, 9]);
}

#[test]
fn plane_without_a_label_gives_the_label_zero() {
    let mut cell = VoronoiCellNeighbor::init();
    assert!(cell.plane(&sides("iiiiiiio")));
    assert_eq!(cell.neighbors(), vec![-5, -3, -1, -2, -4, -6, 0]);
}

#[test]
fn plane_that_leaves_nothing_inside_does_away_with_the_cell() {
    let mut cell = VoronoiCell::init();
    assert!(!cell.plane(&sides("oooooooo")));
    assert!(cell.is_eliminated());
    let mut flat = VoronoiCell::init();
    assert!(!flat.plane(&sides("popopopo")));
    assert!(flat.is_eliminated());
}

#[test]
fn cell_that_is_gone_takes_no_plane() {
    let mut cell = VoronoiCell::init();
    assert_eq!(cell.try_plane(&sides("oooooooo")), Some(false));
    assert_eq!(cell.try_plane(&sides("iiiiiiii")), None);
    let mut other = VoronoiCellNeighbor::init();
    assert_eq!(other.try_nplane(&sides("oooooooo"), 1), Some(false));
    assert_eq!(other.try_nplane(&sides("iiiiiiii"), 1), None);
    assert!(other.is_eliminated());
}

#[test]
fn plane_needs_a_side_for_every_vertex() {
    let mut cell = VoronoiCell::init();
    assert_eq!(cell.try_plane(&sides("iiio")), None);
    assert_eq!(cell.number_of_vertices(), 8);
    let mut other = VoronoiCellNeighbor::init();
    assert_eq!(other.try_nplane(&sides("iiiiiiiio"), 1), None);
    assert_eq!(other.number_of_vertices(), 8);
}

#[test]
fn sides_that_no_plane_gives_are_turned_down() {
    let mut cell = VoronoiCell::init();
    let s = sides("iiiipoop");
    assert!(!cell.admits_plane(&s));
    assert_eq!(cell.try_plane(&s), None);
    assert_eq!(cell.number_of_faces(), 6);
    let mut other = VoronoiCellNeighbor::init();
    assert!(!other.admits_nplane(&s, 1));
    assert_eq!(other.try_nplane(&s, 1), None);
    assert_eq!(other.neighbors(), vec![-5, -3, -1, -2, -4, -6]);
}

#[test]
fn try_plane_cuts_as_plane_does() {
    let mut one = VoronoiCell::init();
    let mut two = VoronoiCell::init();
    let s = sides("ippoippo");
    assert!(one.plane(&s));
    assert_eq!(two.try_plane(&s), Some(true));
    assert_eq!(one.face_vertices(), two.face_vertices());
    assert_eq!(one.number_of_vertices(), 6);
}

#[test]
fn clone_is_a_cell_of_its_own() {
    let cell = VoronoiCellNeighbor::init();
    let mut twin = cell.clone();
    assert!(twin.nplane(&sides("iiiiiiio"), 5));
    assert_eq!(twin.number_of_faces(), 7);
    assert_eq!(cell.number_of_faces(), 6);
    assert_eq!(cell.neighbors(), vec![-5, -3, -1, -2, -4, -6]);
    let plain = VoronoiCell::init_octahedron();
    let mut other = plain.clone();
    assert!(!other.plane(&sides("oooooo")));
    assert!(other.is_eliminated());
    assert!(!plain.is_eliminated());
}

#[test]
fn octahedron_cut_through_its_middle_is_a_pyramid() {
    // corners: -x, +x, -y, +y, -z, +z; the plane z = 0 keeps the lower half
    let mut cell = VoronoiCellNeighbor::init_octahedron();
    let s = sides("ppppio");
    assert!(cell.admits_nplane(&s, 50));
    assert!(cell.nplane(&s, 50));
    assert_eq!(cell.number_of_vertices(), 5);
    assert_eq!(cell.number_of_edges(), 8);
    assert_eq!(cell.number_of_faces(), 5);
    let ids = cell.neighbors();
    assert_eq!(ids.iter().filter(|&&id| id == 50).count(), 1);
    let faces = cell.face_vertices();
    let cap = faces.iter().zip(&ids).find(|(_, &id)| id == 50).map(|(f, _)| f.len());
    assert_eq!(cap, Some(4));
}
