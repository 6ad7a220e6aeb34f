use voropp::{Side, VoronoiCellBase, VoronoiCellNeighbor};

fn sides(text: &str) -> Vec<Side> {
    text.chars()
        .map(|c| match c {
            'i' => Side::Inside,
            'p' => Side::OnPlane,
            _ => Side::Outside,
        })
        .collect()
}

fn apply(cell: &mut VoronoiCellNeighbor, text: &str, id: i32, from: Vec<(usize, usize)>) -> bool {
    let s = sides(text);
    assert!(cell.admits_nplane(&s, id));
    assert_eq!(cell.origins(&s), from);
    cell.nplane(&s, id)
}

fn same(cell: &VoronoiCellNeighbor, faces: Vec<Vec<usize>>, ids: Vec<i32>) {
    assert_eq!(cell.face_vertices(), faces);
    assert_eq!(cell.neighbors(), ids);
    assert_eq!(cell.number_of_faces() as usize, cell.neighbors().len());
    assert_eq!(cell.number_of_vertices() - cell.number_of_edges() + cell.number_of_faces(), 2);
}

#[test]
fn box_cut_again_and_again_01() {
    let mut cell = VoronoiCellNeighbor::init();
    assert!(apply(&mut cell, "poiiooip", 101, vec![(0, 0), (2, 2), (3, 3), (6, 6), (7, 7), (3, 1), (6, 4)]));
    same(&cell, vec![vec![0, 5, 2, 1], vec![0, 6, 4, 5], vec![0, 1, 3, 6], vec![1, 2, 4, 3], vec![2, 5, 4], vec![3, 4, 6]], vec![-5, 101, -1, -4, -2, -6]);
    assert!(apply(&mut cell, "iiiiiii", 102, vec![(0, 0), (1, 1), (2, 2), (3, 3), (4, 4), (5, 5), (6, 6)]));
    same(&cell, vec![vec![0, 5, 2, 1], vec![0, 6, 4, 5], vec![0, 1, 3, 6], vec![1, 2, 4, 3], vec![2, 5, 4], vec![3, 4, 6]], vec![-5, 101, -1, -4, -2, -6]);
    let s = sides("opopooo");
    assert!(cell.admits_nplane(&s, 104));
    assert!(!cell.nplane(&s, 104));
    assert!(cell.is_eliminated());
}

#[test]
fn box_cut_again_and_again_02() {
    let mut cell = VoronoiCellNeighbor::init();
    assert!(apply(&mut cell, "iiiiiiii", 101, vec![(0, 0), (1, 1), (2, 2), (3, 3), (4, 4), (5, 5), (6, 6), (7, 7)]));
    same(&cell, vec![vec![0, 1, 3, 2], vec![0, 4, 5, 1], vec![0, 2, 6, 4], vec![1, 5, 7, 3], vec![2, 3, 7, 6], vec![4, 6, 7, 5]], vec![-5, -3, -1, -2, -4, -6]);
    assert!(apply(&mut cell, "iipoiiip", 103, vec![(0, 0), (1, 1), (2, 2), (4, 4), (5, 5), (6, 6), (7, 7), (1, 3)]));
    same(&cell, vec![vec![0, 1, 7, 2], vec![0, 3, 4, 1], vec![0, 2, 5, 3], vec![1, 4, 6, 7], vec![2, 6, 5], vec![2, 7, 6], vec![3, 5, 6, 4]], vec![-5, -3, -1, -2, -4, 103, -6]);
    let s = sides("oooooooo");
    assert!(cell.admits_nplane(&s, 105));
    assert!(!cell.nplane(&s, 105));
    assert!(cell.is_eliminated());
}

#[test]
fn box_cut_again_and_again_03() {
    let mut cell = VoronoiCellNeighbor::init();
    assert!(apply(&mut cell, "iiiiooii", 101, vec![(0, 0), (1, 1), (2, 2), (3, 3), (6, 6), (7, 7), (0, 4), (1, 5), (6, 4), (7, 5)]));
    same(&cell, vec![vec![0, 1, 3, 2], vec![0, 6, 7, 1], vec![0, 2, 4, 8, 6], vec![1, 7, 9, 5, 3], vec![2, 3, 5, 4], vec![4, 5, 9, 8], vec![6, 8, 9, 7]], vec![-5, -3, -1, -2, -4, -6, 101]);
    assert!(apply(&mut cell, "poioipioio", 102, vec![(0, 0), (2, 2), (4, 4), (5, 5), (6, 6), (8, 8), (2, 3), (6, 7), (8, 9)]));
    same(&cell, vec![vec![0, 6, 1], vec![0, 7, 8, 3, 6], vec![0, 4, 7], vec![0, 1, 2, 5, 4], vec![1, 6, 3, 2], vec![2, 3, 8, 5], vec![4, 5, 8, 7]], vec![-5, 102, -3, -1, -4, -6, 101]);
    assert!(apply(&mut cell, "pioiooioi", 103, vec![(0, 0), (1, 1), (3, 3), (6, 6), (8, 8), (1, 2), (3, 2), (8, 5), (8, 7)]));
    same(&cell, vec![vec![0, 3, 1], vec![0, 8, 4, 2, 3], vec![0, 5, 6, 7, 8], vec![0, 1, 5], vec![1, 3, 2, 6, 5], vec![2, 4, 7, 6], vec![4, 8, 7]], vec![-5, 102, 103, -1, -4, -6, 101]);
    let s = sides("ooooooooo");
    assert!(cell.admits_nplane(&s, 104));
    assert!(!cell.nplane(&s, 104));
    assert!(cell.is_eliminated());
}

#[test]
fn box_cut_again_and_again_04() {
    let mut cell = VoronoiCellNeighbor::init();
    assert!(apply(&mut cell, "iooooooo", 101, vec![(0, 0), (0, 1), (0, 4), (0, 2)]));
    same(&cell, vec![vec![0, 1, 3], vec![0, 2, 1], vec![0, 3, 2], vec![1, 2, 3]], vec![-5, -3, -1, 101]);
    assert!(apply(&mut cell, "pooi", 103, vec![(0, 0), (3, 3), (3, 2), (3, 1)]));
    same(&cell, vec![vec![0, 3, 1], vec![0, 2, 3], vec![0, 1, 2], vec![1, 3, 2]], vec![-5, 103, -1, 101]);
    let s = sides("oppo");
    assert!(cell.admits_nplane(&s, 106));
    assert!(!cell.nplane(&s, 106));
    assert!(cell.is_eliminated());
}

#[test]
fn box_cut_again_and_again_05() {
    let mut cell = VoronoiCellNeighbor::init();
    assert!(apply(&mut cell, "ooooioio", 102, vec![(4, 4), (6, 6), (4, 0), (4, 5), (6, 7), (6, 2)]));
    same(&cell, vec![vec![0, 1, 4, 3], vec![0, 2, 5, 1], vec![0, 3, 2], vec![1, 5, 4], vec![2, 3, 4, 5]], vec![-6, -1, -3, -4, 102]);
    assert!(apply(&mut cell, "iiiiii", 105, vec![(0, 0), (1, 1), (2, 2), (3, 3), (4, 4), (5, 5)]));
    same(&cell, vec![vec![0, 1, 4, 3], vec![0, 2, 5, 1], vec![0, 3, 2], vec![1, 5, 4], vec![2, 3, 4, 5]], vec![-6, -1, -3, -4, 102]);
    assert!(apply(&mut cell, "oiooii", 106, vec![(1, 1), (4, 4), (5, 5), (1, 0), (4, 3), (5, 2)]));
    same(&cell, vec![vec![0, 1, 4, 3], vec![0, 2, 1], vec![0, 3, 5, 2], vec![1, 2, 5, 4], vec![3, 4, 5]], vec![-6, -4, -1, 102, 106]);
    assert!(apply(&mut cell, "opooii", 107, vec![(1, 1), (4, 4), (5, 5), (4, 3), (5, 2), (5, 3)]));
    same(&cell, vec![vec![0, 3, 5, 4], vec![0, 1, 3], vec![0, 4, 2, 1], vec![1, 2, 5, 3], vec![2, 4, 5]], vec![107, -6, 102, 106, -1]);
    let s = sides("oooooo");
    assert!(cell.admits_nplane(&s, 108));
    assert!(!cell.nplane(&s, 108));
    assert!(cell.is_eliminated());
}

#[test]
fn box_cut_again_and_again_06() {
    let mut cell = VoronoiCellNeighbor::init();
    assert!(apply(&mut cell, "oopiooop", 101, vec![(2, 2), (3, 3), (7, 7), (3, 1)]));
    same(&cell, vec![vec![0, 3, 1], vec![0, 2, 3], vec![0, 1, 2], vec![1, 3, 2]], vec![-5, 101, -4, -2]);
    assert!(apply(&mut cell, "iooo", 102, vec![(0, 0), (0, 3), (0, 2), (0, 1)]));
    same(&cell, vec![vec![0, 1, 3], vec![0, 2, 1], vec![0, 3, 2], vec![1, 2, 3]], vec![-5, 101, -4, 102]);
    let s = sides("oooo");
    assert!(cell.admits_nplane(&s, 103));
    assert!(!cell.nplane(&s, 103));
    assert!(cell.is_eliminated());
}

#[test]
fn box_cut_again_and_again_07() {
    let mut cell = VoronoiCellNeighbor::init();
    assert!(apply(&mut cell, "iiioiooo", 102, vec![(0, 0), (1, 1), (2, 2), (4, 4), (1, 3), (1, 5), (2, 6), (2, 3), (4, 6), (4, 5)]));
    same(&cell, vec![vec![0, 1, 4, 7, 2], vec![0, 3, 9, 5, 1], vec![0, 2, 6, 8, 3], vec![1, 5, 4], vec![2, 7, 6], vec![3, 8, 9], vec![4, 5, 9, 8, 6, 7]], vec![-5, -3, -1, -2, -4, -6, 102]);
    assert!(apply(&mut cell, "pooiopooii", 104, vec![(0, 0), (3, 3), (5, 5), (8, 8), (9, 9), (8, 6)]));
    same(&cell, vec![vec![0, 2, 5], vec![0, 1, 4, 2], vec![0, 5, 3, 1], vec![1, 3, 4], vec![2, 4, 3, 5]], vec![104, -3, -1, -6, 102]);
    let s = sides("oooooo");
    assert!(cell.admits_nplane(&s, 107));
    assert!(!cell.nplane(&s, 107));
    assert!(cell.is_eliminated());
}

#[test]
fn box_cut_again_and_again_08() {
    let mut cell = VoronoiCellNeighbor::init();
    assert!(apply(&mut cell, "iiiiiiii", 102, vec![(0, 0), (1, 1), (2, 2), (3, 3), (4, 4), (5, 5), (6, 6), (7, 7)]));
    same(&cell, vec![vec![0, 1, 3, 2], vec![0, 4, 5, 1], vec![0, 2, 6, 4], vec![1, 5, 7, 3], vec![2, 3, 7, 6], vec![4, 6, 7, 5]], vec![-5, -3, -1, -2, -4, -6]);
    assert!(apply(&mut cell, "iiioiiio", 103, vec![(0, 0), (1, 1), (2, 2), (4, 4), (5, 5), (6, 6), (1, 3), (2, 3), (5, 7), (6, 7)]));
    same(&cell, vec![vec![0, 1, 6, 7, 2], vec![0, 3, 4, 1], vec![0, 2, 5, 3], vec![1, 4, 8, 6], vec![2, 7, 9, 5], vec![3, 5, 9, 8, 4], vec![6, 8, 9, 7]], vec![-5, -3, -1, -2, -4, -6, 103]);
    let s = sides("oooooooooo");
    assert!(cell.admits_nplane(&s, 104));
    assert!(!cell.nplane(&s, 104));
    assert!(cell.is_eliminated());
}

#[test]
fn box_cut_again_and_again_09() {
    let mut cell = VoronoiCellNeighbor::init();
    assert!(apply(&mut cell, "ooioioii", 101, vec![(2, 2), (4, 4), (6, 6), (7, 7), (2, 0), (2, 3), (4, 0), (4, 5), (7, 5), (7, 3)]));
    same(&cell, vec![vec![0, 4, 5], vec![0, 2, 1, 6, 4], vec![0, 5, 9, 3, 2], vec![1, 2, 3, 8, 7], vec![1, 7, 6], vec![3, 9, 8], vec![4, 6, 7, 8, 9, 5]], vec![-5, -1, -4, -6, -3, -2, 101]);
    assert!(apply(&mut cell, "iiiiiiiiii", 102, vec![(0, 0), (1, 1), (2, 2), (3, 3), (4, 4), (5, 5), (6, 6), (7, 7), (8, 8), (9, 9)]));
    same(&cell, vec![vec![0, 4, 5], vec![0, 2, 1, 6, 4], vec![0, 5, 9, 3, 2], vec![1, 2, 3, 8, 7], vec![1, 7, 6], vec![3, 9, 8], vec![4, 6, 7, 8, 9, 5]], vec![-5, -1, -4, -6, -3, -2, 101]);
    assert!(apply(&mut cell, "iiioiiipop", 103, vec![(0, 0), (1, 1), (2, 2), (4, 4), (5, 5), (6, 6), (7, 7), (9, 9), (2, 3)]));
    same(&cell, vec![vec![0, 3, 4], vec![0, 2, 1, 5, 3], vec![0, 4, 7, 8, 2], vec![1, 2, 8, 6], vec![1, 6, 5], vec![3, 5, 6, 7, 4], vec![6, 8, 7]], vec![-5, -1, -4, -6, -3, 101, 103]);
    assert!(apply(&mut cell, "ooooiooio", 105, vec![(4, 4), (7, 7), (4, 0), (4, 3), (7, 8), (7, 6)]));
    same(&cell, vec![vec![0, 2, 3], vec![0, 1, 4, 2], vec![0, 3, 5, 1], vec![1, 5, 4], vec![2, 4, 5, 3]], vec![-5, -4, 101, 103, 105]);
    let s = sides("oooooo");
    assert!(cell.admits_nplane(&s, 106));
    assert!(!cell.nplane(&s, 106));
    assert!(cell.is_eliminated());
}

#[test]
fn box_cut_again_and_again_10() {
    let mut cell = VoronoiCellNeighbor::init();
    assert!(apply(&mut cell, "opopoioi", 101, vec![(1, 1), (3, 3), (5, 5), (7, 7), (5, 4), (7, 6)]));
    same(&cell, vec![vec![0, 1, 5, 4], vec![0, 2, 3, 1], vec![0, 4, 2], vec![1, 3, 5], vec![2, 4, 5, 3]], vec![101, -2, -3, -4, -6]);
    assert!(apply(&mut cell, "iiiopo", 102, vec![(0, 0), (1, 1), (2, 2), (4, 4), (1, 5), (1, 3), (2, 3)]));
    same(&cell, vec![vec![0, 1, 4, 3], vec![0, 2, 6, 5, 1], vec![0, 3, 2], vec![1, 5, 4], vec![2, 3, 6], vec![3, 4, 5, 6]], vec![101, -2, -3, -4, -6, 102]);
    assert!(apply(&mut cell, "iiioiii", 105, vec![(0, 0), (1, 1), (2, 2), (4, 4), (5, 5), (6, 6), (0, 3), (2, 3), (4, 3), (6, 3)]));
    same(&cell, vec![vec![0, 1, 3, 8, 6], vec![0, 2, 5, 4, 1], vec![0, 6, 7, 2], vec![1, 4, 3], vec![2, 7, 9, 5], vec![3, 4, 5, 9, 8], vec![6, 8, 9, 7]], vec![101, -2, -3, -4, -6, 102, 105]);
    let s = sides("oooooooooo");
    assert!(cell.admits_nplane(&s, 106));
    assert!(!cell.nplane(&s, 106));
    assert!(cell.is_eliminated());
}

#[test]
fn box_cut_again_and_again_11() {
    let mut cell = VoronoiCellNeighbor::init();
    assert!(apply(&mut cell, "ippoiiio", 101, vec![(0, 0), (1, 1), (2, 2), (4, 4), (5, 5), (6, 6), (5, 7), (6, 7)]));
    same(&cell, vec![vec![0, 1, 2], vec![0, 3, 4, 1], vec![0, 2, 5, 3], vec![1, 6, 7, 2], vec![1, 4, 6], vec![2, 7, 5], vec![3, 5, 7, 6, 4]], vec![-5, -3, -1, 101, -2, -4, -6]);
    assert!(apply(&mut cell, "iiiooooo", 102, vec![(0, 0), (1, 1), (2, 2), (0, 3), (1, 6), (1, 4), (2, 5), (2, 7)]));
    same(&cell, vec![vec![0, 1, 2], vec![0, 3, 5, 1], vec![0, 2, 6, 3], vec![1, 4, 7, 2], vec![1, 5, 4], vec![2, 7, 6], vec![3, 6, 7, 4, 5]], vec![-5, -3, -1, 101, -2, -4, 102]);
    let s = sides("pooooooo");
    assert!(cell.admits_nplane(&s, 103));
    assert!(!cell.nplane(&s, 103));
    assert!(cell.is_eliminated());
}

#[test]
fn box_cut_again_and_again_12() {
    let mut cell = VoronoiCellNeighbor::init();
    assert!(apply(&mut cell, "pioioiop", 101, vec![(0, 0), (1, 1), (3, 3), (5, 5), (7, 7), (3, 2), (5, 4)]));
    same(&cell, vec![vec![0, 1, 2, 5], vec![0, 6, 3, 1], vec![0, 5, 4, 6], vec![1, 3, 4, 2], vec![2, 4, 5], vec![3, 6, 4]], vec![-5, -3, 101, -2, -4, -6]);
    assert!(apply(&mut cell, "ioioiio", 102, vec![(0, 0), (2, 2), (4, 4), (5, 5), (0, 1), (0, 6), (2, 1), (4, 3), (4, 6)]));
    same(&cell, vec![vec![0, 4, 6, 1, 3], vec![0, 5, 4], vec![0, 3, 2, 8, 5], vec![1, 2, 3], vec![1, 6, 7, 2], vec![2, 7, 8], vec![4, 5, 8, 7, 6]], vec![-5, -3, 101, -4, -2, -6, 102]);
    let s = sides("ooooooooo");
    assert!(cell.admits_nplane(&s, 103));
    assert!(!cell.nplane(&s, 103));
    assert!(cell.is_eliminated());
}

#[test]
fn box_cut_again_and_again_13() {
    let mut cell = VoronoiCellNeighbor::init();
    assert!(apply(&mut cell, "opiiiiii", 101, vec![(1, 1), (2, 2), (3, 3), (4, 4), (5, 5), (6, 6), (7, 7), (2, 0), (4, 0)]));
    same(&cell, vec![vec![0, 2, 1, 7], vec![0, 4, 6, 2], vec![0, 8, 3, 4], vec![0, 7, 8], vec![1, 5, 3, 8, 7], vec![1, 2, 6, 5], vec![3, 5, 6, 4]], vec![-5, -2, -3, 101, -1, -4, -6]);
    assert!(apply(&mut cell, "iiiiiiiii", 102, vec![(0, 0), (1, 1), (2, 2), (3, 3), (4, 4), (5, 5), (6, 6), (7, 7), (8, 8)]));
    same(&cell, vec![vec![0, 2, 1, 7], vec![0, 4, 6, 2], vec![0, 8, 3, 4], vec![0, 7, 8], vec![1, 5, 3, 8, 7], vec![1, 2, 6, 5], vec![3, 5, 6, 4]], vec![-5, -2, -3, 101, -1, -4, -6]);
    assert!(apply(&mut cell, "oooioioop", 103, vec![(3, 3), (5, 5), (8, 8), (3, 4), (5, 6), (5, 1)]));
    same(&cell, vec![vec![0, 1, 4, 3], vec![0, 2, 5, 1], vec![0, 3, 2], vec![1, 5, 4], vec![2, 3, 4, 5]], vec![-6, -1, -3, -4, 103]);
    let s = sides("ppoooo");
    assert!(cell.admits_nplane(&s, 105));
    assert!(!cell.nplane(&s, 105));
    assert!(cell.is_eliminated());
}

#[test]
fn box_cut_again_and_again_14() {
    let mut cell = VoronoiCellNeighbor::init();
    assert!(apply(&mut cell, "iioiiioi", 101, vec![(0, 0), (1, 1), (3, 3), (4, 4), (5, 5), (7, 7), (0, 2), (3, 2), (4, 6), (7, 6)]));
    same(&cell, vec![vec![0, 1, 2, 7, 6], vec![0, 3, 4, 1], vec![0, 6, 8, 3], vec![1, 4, 5, 2], vec![2, 5, 9, 7], vec![3, 8, 9, 5, 4], vec![6, 7, 9, 8]], vec![-5, -3, -1, -2, -4, -6, 101]);
    assert!(apply(&mut cell, "iiioooiioo", 102, vec![(0, 0), (1, 1), (2, 2), (6, 6), (7, 7), (0, 3), (1, 4), (2, 5), (6, 8), (7, 9)]));
    same(&cell, vec![vec![0, 1, 2, 4, 3], vec![0, 5, 6, 1], vec![0, 3, 8, 5], vec![1, 6, 7, 2], vec![2, 7, 9, 4], vec![3, 4, 9, 8], vec![5, 8, 9, 7, 6]], vec![-5, -3, -1, -2, -4, 101, 102]);
    assert!(apply(&mut cell, "iioioiioio", 103, vec![(0, 0), (1, 1), (3, 3), (5, 5), (6, 6), (8, 8), (1, 2), (3, 4), (6, 7), (8, 9)]));
    same(&cell, vec![vec![0, 1, 6, 7, 2], vec![0, 3, 4, 1], vec![0, 2, 5, 3], vec![1, 4, 8, 6], vec![2, 7, 9, 5], vec![3, 5, 9, 8, 4], vec![6, 8, 9, 7]], vec![-5, -3, -1, -2, 101, 102, 103]);
    assert!(apply(&mut cell, "ioiioioiii", 104, vec![(0, 0), (2, 2), (3, 3), (5, 5), (7, 7), (8, 8), (9, 9), (0, 1), (3, 4), (7, 6), (8, 4), (8, 6)]));
    same(&cell, vec![vec![0, 7, 9, 4, 1], vec![0, 2, 8, 7], vec![0, 1, 3, 2], vec![1, 4, 6, 3], vec![2, 3, 6, 5, 10, 8], vec![4, 9, 11, 5, 6], vec![5, 11, 10], vec![7, 8, 10, 11, 9]], vec![-5, -3, -1, 101, 102, 103, -2, 104]);
    let s = sides("oooooooooooo");
    assert!(cell.admits_nplane(&s, 105));
    assert!(!cell.nplane(&s, 105));
    assert!(cell.is_eliminated());
}

#[test]
fn octahedron_cut_again_and_again_01() {
    let mut cell = VoronoiCellNeighbor::init_octahedron();
    assert!(apply(&mut cell, "oiioii", 101, vec![(1, 1), (2, 2), (4, 4), (5, 5), (1, 3), (2, 0), (4, 0), (4, 3), (5, 0), (5, 3)]));
    same(&cell, vec![vec![0, 1, 3], vec![0, 2, 1], vec![0, 4, 7, 2], vec![0, 3, 9, 4], vec![1, 5, 8, 3], vec![1, 2, 6, 5], vec![2, 7, 6], vec![3, 8, 9], vec![4, 9, 8, 5, 6, 7]], vec![-5, -6, -7, -8, -2, -1, -4, -3, 101]);
    assert!(apply(&mut cell, "ooooiiiiii", 102, vec![(4, 4), (5, 5), (6, 6), (7, 7), (8, 8), (9, 9), (4, 0), (5, 1), (6, 2), (7, 2), (8, 3), (9, 3)]));
    same(&cell, vec![vec![0, 6, 11, 5], vec![0, 3, 9, 6], vec![0, 5, 4, 1, 2, 3], vec![1, 7, 8, 2], vec![1, 4, 10, 7], vec![2, 8, 9, 3], vec![4, 5, 11, 10], vec![6, 9, 8, 7, 10, 11]], vec![-8, -7, 101, -1, -2, -4, -3, 102]);
    assert!(apply(&mut cell, "iiiiiippooii", 103, vec![(0, 0), (1, 1), (2, 2), (3, 3), (4, 4), (5, 5), (6, 6), (7, 7), (10, 10), (11, 11), (2, 8), (3, 9)]));
    same(&cell, vec![vec![0, 6, 9, 5], vec![0, 3, 11, 6], vec![0, 5, 4, 1, 2, 3], vec![1, 7, 10, 2], vec![1, 4, 8, 7], vec![2, 10, 11, 3], vec![4, 5, 9, 8], vec![6, 7, 8, 9], vec![6, 11, 10, 7]], vec![-8, -7, 101, -1, -2, -4, -3, 102, 103]);
    assert!(apply(&mut cell, "oiooioooiioo", 104, vec![(1, 1), (4, 4), (8, 8), (9, 9), (1, 7), (1, 2), (4, 5), (8, 7), (9, 5), (9, 6)]));
    same(&cell, vec![vec![0, 4, 5], vec![0, 1, 2, 7, 4], vec![0, 5, 6, 1], vec![1, 6, 8, 3, 2], vec![2, 3, 9, 7], vec![3, 8, 9], vec![4, 7, 9, 8, 6, 5]], vec![-1, -2, 101, -3, 102, -8, 104]);
}

#[test]
fn octahedron_cut_again_and_again_02() {
    let mut cell = VoronoiCellNeighbor::init_octahedron();
    assert!(apply(&mut cell, "oiiooi", 101, vec![(1, 1), (2, 2), (5, 5), (1, 4), (1, 3), (2, 0), (2, 4), (5, 0), (5, 3)]));
    same(&cell, vec![vec![0, 1, 2], vec![0, 3, 6, 1], vec![0, 4, 3], vec![0, 2, 8, 4], vec![1, 5, 7, 2], vec![1, 6, 5], vec![2, 7, 8], vec![3, 4, 8, 7, 5, 6]], vec![-5, -6, -7, -8, -2, -1, -3, 101]);
    assert!(apply(&mut cell, "oiiooooii", 102, vec![(1, 1), (2, 2), (7, 7), (8, 8), (1, 5), (1, 6), (1, 0), (2, 0), (7, 5), (8, 4)]));
    same(&cell, vec![vec![0, 4, 8, 2, 1], vec![0, 5, 4], vec![0, 6, 5], vec![0, 1, 7, 6], vec![1, 2, 3], vec![1, 3, 9, 7], vec![2, 8, 9, 3], vec![4, 5, 6, 7, 9, 8]], vec![-2, -1, -6, -5, -3, -8, 101, 102]);
    assert!(apply(&mut cell, "piiipopiii", 103, vec![(0, 0), (1, 1), (2, 2), (3, 3), (4, 4), (6, 6), (7, 7), (8, 8), (9, 9)]));
    same(&cell, vec![vec![0, 4, 7, 2, 1], vec![0, 5, 4], vec![0, 1, 6, 5], vec![1, 2, 3], vec![1, 3, 8, 6], vec![2, 7, 8, 3], vec![4, 5, 6, 8, 7]], vec![-2, 103, -5, -3, -8, 101, 102]);
    assert!(apply(&mut cell, "poooiooio", 105, vec![(0, 0), (4, 4), (7, 7), (4, 5), (7, 2), (7, 8)]));
    same(&cell, vec![vec![0, 1, 2, 4], vec![0, 3, 1], vec![0, 4, 5, 3], vec![1, 3, 5, 2], vec![2, 5, 4]], vec![-2, 103, 105, 102, 101]);
}

#[test]
fn octahedron_cut_again_and_again_03() {
    let mut cell = VoronoiCellNeighbor::init_octahedron();
    assert!(apply(&mut cell, "pioiip", 101, vec![(0, 0), (1, 1), (3, 3), (4, 4), (5, 5), (1, 2), (4, 2)]));
    same(&cell, vec![vec![0, 6, 3], vec![0, 4, 5, 6], vec![0, 2, 4], vec![0, 3, 2], vec![1, 5, 4], vec![1, 3, 6, 5], vec![1, 2, 3], vec![1, 4, 2]], vec![-1, 101, -3, -4, -5, -6, -7, -8]);
    assert!(apply(&mut cell, "ooiiooo", 102, vec![(2, 2), (3, 3), (2, 0), (2, 4), (2, 1), (3, 0), (3, 1), (3, 6)]));
    same(&cell, vec![vec![0, 2, 5, 1], vec![0, 3, 2], vec![0, 4, 3], vec![0, 1, 6, 4], vec![1, 5, 7], vec![1, 7, 6], vec![2, 3, 4, 6, 7, 5]], vec![-4, -3, -8, -7, -1, -6, 102]);
    assert!(apply(&mut cell, "iiiiioip", 103, vec![(0, 0), (1, 1), (2, 2), (3, 3), (4, 4), (6, 6), (7, 7), (1, 5), (2, 5)]));
    same(&cell, vec![vec![0, 2, 8, 7, 1], vec![0, 3, 2], vec![0, 4, 3], vec![0, 1, 5, 4], vec![1, 7, 6], vec![1, 6, 5], vec![2, 3, 4, 5, 6, 8], vec![6, 7, 8]], vec![-4, -3, -8, -7, -1, -6, 102, 103]);
    let s = sides("ooooooooo");
    assert!(cell.admits_nplane(&s, 104));
    assert!(!cell.nplane(&s, 104));
    assert!(cell.is_eliminated());
}

#[test]
fn octahedron_cut_again_and_again_04() {
    let mut cell = VoronoiCellNeighbor::init_octahedron();
    assert!(apply(&mut cell, "opiopo", 101, vec![(1, 1), (2, 2), (4, 4), (2, 0), (2, 5)]));
    same(&cell, vec![vec![0, 1, 4], vec![0, 2, 1], vec![0, 4, 3, 2], vec![1, 3, 4], vec![1, 2, 3]], vec![-5, -6, 101, -2, -1]);
    assert!(apply(&mut cell, "iiipi", 102, vec![(0, 0), (1, 1), (2, 2), (3, 3), (4, 4)]));
    same(&cell, vec![vec![0, 1, 4], vec![0, 2, 1], vec![0, 4, 3, 2], vec![1, 3, 4], vec![1, 2, 3]], vec![-5, -6, 101, -2, -1]);
    assert!(apply(&mut cell, "ioioo", 103, vec![(0, 0), (2, 2), (0, 1), (0, 4), (2, 3), (2, 1)]));
    same(&cell, vec![vec![0, 2, 3], vec![0, 1, 5, 2], vec![0, 3, 4, 1], vec![1, 4, 5], vec![2, 5, 4, 3]], vec![-5, -6, 101, -1, 103]);
    assert!(apply(&mut cell, "ioiioo", 105, vec![(0, 0), (2, 2), (3, 3), (0, 1), (2, 5), (3, 4)]));
    same(&cell, vec![vec![0, 1, 2], vec![0, 3, 4, 1], vec![0, 2, 5, 3], vec![1, 4, 5, 2], vec![3, 5, 4]], vec![-5, -6, 101, 103, 105]);
}

#[test]
fn octahedron_cut_again_and_again_05() {
    let mut cell = VoronoiCellNeighbor::init_octahedron();
    assert!(apply(&mut cell, "ioiooi", 101, vec![(0, 0), (2, 2), (5, 5), (0, 3), (0, 4), (2, 4), (2, 1), (5, 1), (5, 3)]));
    same(&cell, vec![vec![0, 1, 5, 4], vec![0, 2, 1], vec![0, 3, 8, 2], vec![0, 4, 3], vec![1, 6, 5], vec![1, 2, 7, 6], vec![2, 8, 7], vec![3, 4, 5, 6, 7, 8]], vec![-1, -2, -3, -4, -6, -5, -8, 101]);
    assert!(apply(&mut cell, "iiiioiiii", 102, vec![(0, 0), (1, 1), (2, 2), (3, 3), (5, 5), (6, 6), (7, 7), (8, 8), (0, 4), (3, 4), (5, 4)]));
    same(&cell, vec![vec![0, 1, 4, 10, 8], vec![0, 2, 1], vec![0, 3, 7, 2], vec![0, 8, 9, 3], vec![1, 5, 4], vec![1, 2, 6, 5], vec![2, 7, 6], vec![3, 9, 10, 4, 5, 6, 7], vec![8, 10, 9]], vec![-1, -2, -3, -4, -6, -5, -8, 101, 102]);
    assert!(apply(&mut cell, "oooiooopooo", 103, vec![(3, 3), (7, 7), (3, 0), (3, 9)]));
    same(&cell, vec![vec![0, 2, 3], vec![0, 1, 2], vec![0, 3, 1], vec![1, 3, 2]], vec![-4, -3, 101, 103]);
    assert!(apply(&mut cell, "oioo", 104, vec![(1, 1), (1, 2), (1, 3), (1, 0)]));
    same(&cell, vec![vec![0, 1, 3], vec![0, 2, 1], vec![0, 3, 2], vec![1, 2, 3]], vec![-3, 103, 101, 104]);
}

#[test]
fn tetrahedron_cut_again_and_again_01() {
    let mut cell = VoronoiCellNeighbor::init_tetrahedron();
    assert!(apply(&mut cell, "oiii", 101, vec![(1, 1), (2, 2), (3, 3), (1, 0), (2, 0), (3, 0)]));
    same(&cell, vec![vec![0, 3, 5, 2], vec![0, 1, 4, 3], vec![0, 2, 1], vec![1, 2, 5, 4], vec![3, 4, 5]], vec![-3, -4, -1, -2, 101]);
    assert!(apply(&mut cell, "iioiii", 102, vec![(0, 0), (1, 1), (3, 3), (4, 4), (5, 5), (0, 2), (1, 2), (5, 2)]));
    same(&cell, vec![vec![0, 2, 4, 7, 5], vec![0, 1, 3, 2], vec![0, 5, 6, 1], vec![1, 6, 7, 4, 3], vec![2, 3, 4], vec![5, 7, 6]], vec![-3, -4, -1, -2, 101, 102]);
    assert!(apply(&mut cell, "oioooopo", 103, vec![(1, 1), (6, 6), (1, 3), (1, 0)]));
    same(&cell, vec![vec![0, 2, 3], vec![0, 1, 2], vec![0, 3, 1], vec![1, 3, 2]], vec![-4, -2, -1, 103]);
    let s = sides("oooo");
    assert!(cell.admits_nplane(&s, 105));
    assert!(!cell.nplane(&s, 105));
    assert!(cell.is_eliminated());
}

#[test]
fn tetrahedron_cut_again_and_again_02() {
    let mut cell = VoronoiCellNeighbor::init_tetrahedron();
    assert!(apply(&mut cell, "popi", 101, vec![(0, 0), (2, 2), (3, 3), (3, 1)]));
    same(&cell, vec![vec![0, 3, 1], vec![0, 2, 3], vec![0, 1, 2], vec![1, 3, 2]], vec![101, -3, -2, -1]);
    assert!(apply(&mut cell, "iiii", 102, vec![(0, 0), (1, 1), (2, 2), (3, 3)]));
    same(&cell, vec![vec![0, 3, 1], vec![0, 2, 3], vec![0, 1, 2], vec![1, 3, 2]], vec![101, -3, -2, -1]);
    assert!(apply(&mut cell, "ioio", 103, vec![(0, 0), (2, 2), (0, 3), (0, 1), (2, 3), (2, 1)]));
    same(&cell, vec![vec![0, 2, 3], vec![0, 1, 4, 2], vec![0, 3, 5, 1], vec![1, 5, 4], vec![2, 4, 5, 3]], vec![101, -3, -2, -1, 103]);
    let s = sides("oooooo");
    assert!(cell.admits_nplane(&s, 104));
    assert!(!cell.nplane(&s, 104));
    assert!(cell.is_eliminated());
}

#[test]
fn tetrahedron_cut_again_and_again_03() {
    let mut cell = VoronoiCellNeighbor::init_tetrahedron();
    assert!(apply(&mut cell, "ioio", 101, vec![(0, 0), (2, 2), (0, 1), (0, 3), (2, 3), (2, 1)]));
    same(&cell, vec![vec![0, 2, 5, 1], vec![0, 3, 2], vec![0, 1, 4, 3], vec![1, 5, 4], vec![2, 3, 4, 5]], vec![-4, -3, -2, -1, 101]);
    assert!(apply(&mut cell, "iiioii", 102, vec![(0, 0), (1, 1), (2, 2), (4, 4), (5, 5), (0, 3), (2, 3), (4, 3)]));
    same(&cell, vec![vec![0, 2, 4, 1], vec![0, 5, 6, 2], vec![0, 1, 3, 7, 5], vec![1, 4, 3], vec![2, 6, 7, 3, 4], vec![5, 7, 6]], vec![-4, -3, -2, -1, 101, 102]);
    assert!(apply(&mut cell, "ioiooiii", 103, vec![(0, 0), (2, 2), (5, 5), (6, 6), (7, 7), (0, 1), (2, 4), (7, 3)]));
    same(&cell, vec![vec![0, 1, 6, 5], vec![0, 2, 3, 1], vec![0, 5, 7, 4, 2], vec![1, 3, 4, 7, 6], vec![2, 4, 3], vec![5, 6, 7]], vec![-4, -3, -2, 101, 102, 103]);
    assert!(apply(&mut cell, "oooooipp", 104, vec![(5, 5), (6, 6), (7, 7), (5, 0)]));
    same(&cell, vec![vec![0, 3, 1], vec![0, 2, 3], vec![0, 1, 2], vec![1, 3, 2]], vec![-4, -2, 103, 104]);
}

#[test]
fn tetrahedron_cut_again_and_again_04() {
    let mut cell = VoronoiCellNeighbor::init_tetrahedron();
    assert!(apply(&mut cell, "oioo", 101, vec![(1, 1), (1, 0), (1, 2), (1, 3)]));
    same(&cell, vec![vec![0, 1, 3], vec![0, 2, 1], vec![0, 3, 2], vec![1, 2, 3]], vec![-3, -4, -1, 101]);
    assert!(apply(&mut cell, "iiop", 104, vec![(0, 0), (1, 1), (3, 3), (0, 2), (1, 2)]));
    same(&cell, vec![vec![0, 1, 2], vec![0, 3, 4, 1], vec![0, 2, 3], vec![1, 4, 2], vec![2, 4, 3]], vec![-3, -4, -1, 101, 104]);
    let s = sides("ooooo");
    assert!(cell.admits_nplane(&s, 105));
    assert!(!cell.nplane(&s, 105));
    assert!(cell.is_eliminated());
}

#[test]
fn tetrahedron_cut_again_and_again_05() {
    let mut cell = VoronoiCellNeighbor::init_tetrahedron();
    assert!(apply(&mut cell, "oopi", 101, vec![(2, 2), (3, 3), (3, 0), (3, 1)]));
    same(&cell, vec![vec![0, 2, 3], vec![0, 1, 2], vec![0, 3, 1], vec![1, 3, 2]], vec![101, -2, -1, -3]);
    assert!(apply(&mut cell, "oiii", 102, vec![(1, 1), (2, 2), (3, 3), (1, 0), (2, 0), (3, 0)]));
    same(&cell, vec![vec![0, 1, 4, 3], vec![0, 2, 1], vec![0, 3, 5, 2], vec![1, 2, 5, 4], vec![3, 4, 5]], vec![-2, -3, -1, 101, 102]);
    let s = sides("oooooo");
    assert!(cell.admits_nplane(&s, 104));
    assert!(!cell.nplane(&s, 104));
    assert!(cell.is_eliminated());
}
