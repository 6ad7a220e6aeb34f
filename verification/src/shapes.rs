//! The three shapes that a cell can start from.
use vstd::prelude::*;
use crate::clip::labels_shaped;
use crate::graph::{edge_total, faces_simple, polyhedral};
use crate::labels::{face_labels, label_of_face, labels_fit};
use crate::model::{
    after, dart_lt, degree_sum, face_listed, first_dart, in_order, is_dart, lemma_slot, next,
    on_a_face, on_face, orbit, rings_valid, rows,
};
use crate::rings::is_rotation;
use crate::unique::{faces_of, lemma_faces_of};

verus! {

/// The next dart, where the place that leads back is known.
proof fn lemma_next_at(a: Seq<Seq<usize>>, d: (int, int), j: int)
    requires
        rings_valid(a),
        is_dart(a, d),
        is_dart(a, (a[d.0][d.1] as int, j)),
        a[a[d.0][d.1] as int][j] == d.0,
    ensures
        next(a, d) == (a[d.0][d.1] as int, after(j, a[a[d.0][d.1] as int].len() as int)),
{
    lemma_slot(a, a[d.0][d.1] as int, j);
}

/// The rings of the box: eight corners, each with three neighbours.
pub open spec fn box_rings() -> Seq<Seq<usize>> {
    seq![
        seq![1usize, 4, 2],
        seq![3usize, 5, 0],
        seq![0usize, 6, 3],
        seq![2usize, 7, 1],
        seq![6usize, 0, 5],
        seq![4usize, 1, 7],
        seq![7usize, 2, 4],
        seq![5usize, 3, 6],
    ]
}

/// The faces of the box, each as the list of its corners.
pub open spec fn box_faces() -> Seq<Seq<usize>> {
    seq![
        seq![0usize, 1, 3, 2],
        seq![0usize, 4, 5, 1],
        seq![0usize, 2, 6, 4],
        seq![1usize, 5, 7, 3],
        seq![2usize, 3, 7, 6],
        seq![4usize, 6, 7, 5],
    ]
}

/// The rings of the box are those of a graph; it has 24 darts.
proof fn lemma_box_rings_valid()
    ensures
        is_rotation(box_rings()),
        degree_sum(box_rings(), 8) == 24,
{
    let a = box_rings();
    assert(a.len() == 8);
    assert(a[0] == seq![1usize, 4, 2]);
    assert(a[1] == seq![3usize, 5, 0]);
    assert(a[2] == seq![0usize, 6, 3]);
    assert(a[3] == seq![2usize, 7, 1]);
    assert(a[4] == seq![6usize, 0, 5]);
    assert(a[5] == seq![4usize, 1, 7]);
    assert(a[6] == seq![7usize, 2, 4]);
    assert(a[7] == seq![5usize, 3, 6]);
    assert forall|v: int, k: int| #![trigger a[v][k]] is_dart(a, (v, k)) implies a[v][k] < a.len() && a[v][k] != v
        && a[a[v][k] as int].contains(v as usize) by {
        if v == 0 {
            if k == 0 {
                assert(a[1][2] == 0);
            }
            if k == 1 {
                assert(a[4][1] == 0);
            }
            if k == 2 {
                assert(a[2][0] == 0);
            }
        }
        else if v == 1 {
            if k == 0 {
                assert(a[3][2] == 1);
            }
            if k == 1 {
                assert(a[5][1] == 1);
            }
            if k == 2 {
                assert(a[0][0] == 1);
            }
        }
        else if v == 2 {
            if k == 0 {
                assert(a[0][2] == 2);
            }
            if k == 1 {
                assert(a[6][1] == 2);
            }
            if k == 2 {
                assert(a[3][0] == 2);
            }
        }
        else if v == 3 {
            if k == 0 {
                assert(a[2][2] == 3);
            }
            if k == 1 {
                assert(a[7][1] == 3);
            }
            if k == 2 {
                assert(a[1][0] == 3);
            }
        }
        else if v == 4 {
            if k == 0 {
                assert(a[6][2] == 4);
            }
            if k == 1 {
                assert(a[0][1] == 4);
            }
            if k == 2 {
                assert(a[5][0] == 4);
            }
        }
        else if v == 5 {
            if k == 0 {
                assert(a[4][2] == 5);
            }
            if k == 1 {
                assert(a[1][1] == 5);
            }
            if k == 2 {
                assert(a[7][0] == 5);
            }
        }
        else if v == 6 {
            if k == 0 {
                assert(a[7][2] == 6);
            }
            if k == 1 {
                assert(a[2][1] == 6);
            }
            if k == 2 {
                assert(a[4][0] == 6);
            }
        }
        else if v == 7 {
            if k == 0 {
                assert(a[5][2] == 7);
            }
            if k == 1 {
                assert(a[3][1] == 7);
            }
            if k == 2 {
                assert(a[6][0] == 7);
            }
        }
    }
    assert forall|v: int, j: int, k: int| #![trigger a[v][j], a[v][k]] is_dart(a, (v, j)) && is_dart(a, (v, k)) && j != k implies a[v][j] != a[v][k] by {
        if v == 0 {
            assert(a[0] == seq![1usize, 4, 2]);
        }
        if v == 1 {
            assert(a[1] == seq![3usize, 5, 0]);
        }
        if v == 2 {
            assert(a[2] == seq![0usize, 6, 3]);
        }
        if v == 3 {
            assert(a[3] == seq![2usize, 7, 1]);
        }
        if v == 4 {
            assert(a[4] == seq![6usize, 0, 5]);
        }
        if v == 5 {
            assert(a[5] == seq![4usize, 1, 7]);
        }
        if v == 6 {
            assert(a[6] == seq![7usize, 2, 4]);
        }
        if v == 7 {
            assert(a[7] == seq![5usize, 3, 6]);
        }
    }
    assert(degree_sum(a, 0) == 0);
    assert(degree_sum(a, 1) == 3);
    assert(degree_sum(a, 2) == 6);
    assert(degree_sum(a, 3) == 9);
    assert(degree_sum(a, 4) == 12);
    assert(degree_sum(a, 5) == 15);
    assert(degree_sum(a, 6) == 18);
    assert(degree_sum(a, 7) == 21);
    assert(degree_sum(a, 8) == 24);
}

/// The walk along face 0 of the box.
proof fn lemma_box_face_0()
    ensures
        orbit(box_rings(), (0, 0), 0) == (0int, 0int),
        orbit(box_rings(), (0, 0), 1) == (1int, 0int),
        orbit(box_rings(), (0, 0), 2) == (3int, 0int),
        orbit(box_rings(), (0, 0), 3) == (2int, 0int),
        orbit(box_rings(), (0, 0), 4) == (0int, 0int),
{
    let a = box_rings();
    lemma_box_rings_valid();
    lemma_next_at(a, (0, 0), 2);
    lemma_next_at(a, (1, 0), 2);
    lemma_next_at(a, (3, 0), 2);
    lemma_next_at(a, (2, 0), 2);
    assert(orbit(a, (0, 0), 0) == (0int, 0int));
    assert(orbit(a, (0, 0), 1) == next(a, orbit(a, (0, 0), 0)));
    assert(orbit(a, (0, 0), 2) == next(a, orbit(a, (0, 0), 1)));
    assert(orbit(a, (0, 0), 3) == next(a, orbit(a, (0, 0), 2)));
    assert(orbit(a, (0, 0), 4) == next(a, orbit(a, (0, 0), 3)));
}

/// The walk along face 1 of the box.
proof fn lemma_box_face_1()
    ensures
        orbit(box_rings(), (0, 1), 0) == (0int, 1int),
        orbit(box_rings(), (0, 1), 1) == (4int, 2int),
        orbit(box_rings(), (0, 1), 2) == (5int, 1int),
        orbit(box_rings(), (0, 1), 3) == (1int, 2int),
        orbit(box_rings(), (0, 1), 4) == (0int, 1int),
{
    let a = box_rings();
    lemma_box_rings_valid();
    lemma_next_at(a, (0, 1), 1);
    lemma_next_at(a, (4, 2), 0);
    lemma_next_at(a, (5, 1), 1);
    lemma_next_at(a, (1, 2), 0);
    assert(orbit(a, (0, 1), 0) == (0int, 1int));
    assert(orbit(a, (0, 1), 1) == next(a, orbit(a, (0, 1), 0)));
    assert(orbit(a, (0, 1), 2) == next(a, orbit(a, (0, 1), 1)));
    assert(orbit(a, (0, 1), 3) == next(a, orbit(a, (0, 1), 2)));
    assert(orbit(a, (0, 1), 4) == next(a, orbit(a, (0, 1), 3)));
}

/// The walk along face 2 of the box.
proof fn lemma_box_face_2()
    ensures
        orbit(box_rings(), (0, 2), 0) == (0int, 2int),
        orbit(box_rings(), (0, 2), 1) == (2int, 1int),
        orbit(box_rings(), (0, 2), 2) == (6int, 2int),
        orbit(box_rings(), (0, 2), 3) == (4int, 1int),
        orbit(box_rings(), (0, 2), 4) == (0int, 2int),
{
    let a = box_rings();
    lemma_box_rings_valid();
    lemma_next_at(a, (0, 2), 0);
    lemma_next_at(a, (2, 1), 1);
    lemma_next_at(a, (6, 2), 0);
    lemma_next_at(a, (4, 1), 1);
    assert(orbit(a, (0, 2), 0) == (0int, 2int));
    assert(orbit(a, (0, 2), 1) == next(a, orbit(a, (0, 2), 0)));
    assert(orbit(a, (0, 2), 2) == next(a, orbit(a, (0, 2), 1)));
    assert(orbit(a, (0, 2), 3) == next(a, orbit(a, (0, 2), 2)));
    assert(orbit(a, (0, 2), 4) == next(a, orbit(a, (0, 2), 3)));
}

/// The walk along face 3 of the box.
proof fn lemma_box_face_3()
    ensures
        orbit(box_rings(), (1, 1), 0) == (1int, 1int),
        orbit(box_rings(), (1, 1), 1) == (5int, 2int),
        orbit(box_rings(), (1, 1), 2) == (7int, 1int),
        orbit(box_rings(), (1, 1), 3) == (3int, 2int),
        orbit(box_rings(), (1, 1), 4) == (1int, 1int),
{
    let a = box_rings();
    lemma_box_rings_valid();
    lemma_next_at(a, (1, 1), 1);
    lemma_next_at(a, (5, 2), 0);
    lemma_next_at(a, (7, 1), 1);
    lemma_next_at(a, (3, 2), 0);
    assert(orbit(a, (1, 1), 0) == (1int, 1int));
    assert(orbit(a, (1, 1), 1) == next(a, orbit(a, (1, 1), 0)));
    assert(orbit(a, (1, 1), 2) == next(a, orbit(a, (1, 1), 1)));
    assert(orbit(a, (1, 1), 3) == next(a, orbit(a, (1, 1), 2)));
    assert(orbit(a, (1, 1), 4) == next(a, orbit(a, (1, 1), 3)));
}

/// The walk along face 4 of the box.
proof fn lemma_box_face_4()
    ensures
        orbit(box_rings(), (2, 2), 0) == (2int, 2int),
        orbit(box_rings(), (2, 2), 1) == (3int, 1int),
        orbit(box_rings(), (2, 2), 2) == (7int, 2int),
        orbit(box_rings(), (2, 2), 3) == (6int, 1int),
        orbit(box_rings(), (2, 2), 4) == (2int, 2int),
{
    let a = box_rings();
    lemma_box_rings_valid();
    lemma_next_at(a, (2, 2), 0);
    lemma_next_at(a, (3, 1), 1);
    lemma_next_at(a, (7, 2), 0);
    lemma_next_at(a, (6, 1), 1);
    assert(orbit(a, (2, 2), 0) == (2int, 2int));
    assert(orbit(a, (2, 2), 1) == next(a, orbit(a, (2, 2), 0)));
    assert(orbit(a, (2, 2), 2) == next(a, orbit(a, (2, 2), 1)));
    assert(orbit(a, (2, 2), 3) == next(a, orbit(a, (2, 2), 2)));
    assert(orbit(a, (2, 2), 4) == next(a, orbit(a, (2, 2), 3)));
}

/// The walk along face 5 of the box.
proof fn lemma_box_face_5()
    ensures
        orbit(box_rings(), (4, 0), 0) == (4int, 0int),
        orbit(box_rings(), (4, 0), 1) == (6int, 0int),
        orbit(box_rings(), (4, 0), 2) == (7int, 0int),
        orbit(box_rings(), (4, 0), 3) == (5int, 0int),
        orbit(box_rings(), (4, 0), 4) == (4int, 0int),
{
    let a = box_rings();
    lemma_box_rings_valid();
    lemma_next_at(a, (4, 0), 2);
    lemma_next_at(a, (6, 0), 2);
    lemma_next_at(a, (7, 0), 2);
    lemma_next_at(a, (5, 0), 2);
    assert(orbit(a, (4, 0), 0) == (4int, 0int));
    assert(orbit(a, (4, 0), 1) == next(a, orbit(a, (4, 0), 0)));
    assert(orbit(a, (4, 0), 2) == next(a, orbit(a, (4, 0), 1)));
    assert(orbit(a, (4, 0), 3) == next(a, orbit(a, (4, 0), 2)));
    assert(orbit(a, (4, 0), 4) == next(a, orbit(a, (4, 0), 3)));
}

/// The rings of the box are those of a polyhedron, and its faces are the ones listed.
pub proof fn lemma_box_is_polyhedral()
    ensures
        polyhedral(box_rings()),
        faces_of(box_rings()) == box_faces(),
        edge_total(box_rings()) == 12,
{
    let a = box_rings();
    let fs = box_faces();
    lemma_box_rings_valid();
    assert(fs.len() == 6);
    assert(fs[0] == seq![0usize, 1, 3, 2]);
    assert(fs[1] == seq![0usize, 4, 5, 1]);
    assert(fs[2] == seq![0usize, 2, 6, 4]);
    assert(fs[3] == seq![1usize, 5, 7, 3]);
    assert(fs[4] == seq![2usize, 3, 7, 6]);
    assert(fs[5] == seq![4usize, 6, 7, 5]);
    lemma_box_face_0();
    lemma_slot(a, 0, 0);
    assert(first_dart(a, fs[0]) == (0int, 0int));
    lemma_box_face_1();
    lemma_slot(a, 0, 1);
    assert(first_dart(a, fs[1]) == (0int, 1int));
    lemma_box_face_2();
    lemma_slot(a, 0, 2);
    assert(first_dart(a, fs[2]) == (0int, 2int));
    lemma_box_face_3();
    lemma_slot(a, 1, 1);
    assert(first_dart(a, fs[3]) == (1int, 1int));
    lemma_box_face_4();
    lemma_slot(a, 2, 2);
    assert(first_dart(a, fs[4]) == (2int, 2int));
    lemma_box_face_5();
    lemma_slot(a, 4, 0);
    assert(first_dart(a, fs[5]) == (4int, 0int));
    assert forall|j: int| 0 <= j < fs.len() implies #[trigger] face_listed(a, fs, j) by {
        if j == 0 {
            assert forall|i: nat| i < fs[0].len() implies fs[0][i as int] == (#[trigger] orbit(a, (0, 0), i)).0 by {
                assert(i == 0 || i == 1 || i == 2 || i == 3);
            }
            assert forall|i: nat| 0 < i < fs[0].len() implies dart_lt((0, 0), #[trigger] orbit(a, (0, 0), i)) by {
                assert(i == 1 || i == 2 || i == 3);
            }
        }
        if j == 1 {
            assert forall|i: nat| i < fs[1].len() implies fs[1][i as int] == (#[trigger] orbit(a, (0, 1), i)).0 by {
                assert(i == 0 || i == 1 || i == 2 || i == 3);
            }
            assert forall|i: nat| 0 < i < fs[1].len() implies dart_lt((0, 1), #[trigger] orbit(a, (0, 1), i)) by {
                assert(i == 1 || i == 2 || i == 3);
            }
        }
        if j == 2 {
            assert forall|i: nat| i < fs[2].len() implies fs[2][i as int] == (#[trigger] orbit(a, (0, 2), i)).0 by {
                assert(i == 0 || i == 1 || i == 2 || i == 3);
            }
            assert forall|i: nat| 0 < i < fs[2].len() implies dart_lt((0, 2), #[trigger] orbit(a, (0, 2), i)) by {
                assert(i == 1 || i == 2 || i == 3);
            }
        }
        if j == 3 {
            assert forall|i: nat| i < fs[3].len() implies fs[3][i as int] == (#[trigger] orbit(a, (1, 1), i)).0 by {
                assert(i == 0 || i == 1 || i == 2 || i == 3);
            }
            assert forall|i: nat| 0 < i < fs[3].len() implies dart_lt((1, 1), #[trigger] orbit(a, (1, 1), i)) by {
                assert(i == 1 || i == 2 || i == 3);
            }
        }
        if j == 4 {
            assert forall|i: nat| i < fs[4].len() implies fs[4][i as int] == (#[trigger] orbit(a, (2, 2), i)).0 by {
                assert(i == 0 || i == 1 || i == 2 || i == 3);
            }
            assert forall|i: nat| 0 < i < fs[4].len() implies dart_lt((2, 2), #[trigger] orbit(a, (2, 2), i)) by {
                assert(i == 1 || i == 2 || i == 3);
            }
        }
        if j == 5 {
            assert forall|i: nat| i < fs[5].len() implies fs[5][i as int] == (#[trigger] orbit(a, (4, 0), i)).0 by {
                assert(i == 0 || i == 1 || i == 2 || i == 3);
            }
            assert forall|i: nat| 0 < i < fs[5].len() implies dart_lt((4, 0), #[trigger] orbit(a, (4, 0), i)) by {
                assert(i == 1 || i == 2 || i == 3);
            }
        }
    }
    assert forall|j: int, j2: int| 0 <= j < j2 < fs.len() implies #[trigger] in_order(a, fs, j, j2) by {
        assert(j == 0 || j == 1 || j == 2 || j == 3 || j == 4 || j == 5);
        assert(j2 == 0 || j2 == 1 || j2 == 2 || j2 == 3 || j2 == 4 || j2 == 5);
    }
    assert forall|d: (int, int)| #[trigger] is_dart(a, d) implies on_a_face(a, fs, d) by {
        if d.0 == 0 {
            if d.1 == 0 {
                assert(orbit(a, (0, 0), 0) == d);
                assert(on_face(a, first_dart(a, fs[0]), fs[0].len(), d));
            }
            if d.1 == 1 {
                assert(orbit(a, (0, 1), 0) == d);
                assert(on_face(a, first_dart(a, fs[1]), fs[1].len(), d));
            }
            if d.1 == 2 {
                assert(orbit(a, (0, 2), 0) == d);
                assert(on_face(a, first_dart(a, fs[2]), fs[2].len(), d));
            }
        }
        if d.0 == 1 {
            if d.1 == 0 {
                assert(orbit(a, (0, 0), 1) == d);
                assert(on_face(a, first_dart(a, fs[0]), fs[0].len(), d));
            }
            if d.1 == 1 {
                assert(orbit(a, (1, 1), 0) == d);
                assert(on_face(a, first_dart(a, fs[3]), fs[3].len(), d));
            }
            if d.1 == 2 {
                assert(orbit(a, (0, 1), 3) == d);
                assert(on_face(a, first_dart(a, fs[1]), fs[1].len(), d));
            }
        }
        if d.0 == 2 {
            if d.1 == 0 {
                assert(orbit(a, (0, 0), 3) == d);
                assert(on_face(a, first_dart(a, fs[0]), fs[0].len(), d));
            }
            if d.1 == 1 {
                assert(orbit(a, (0, 2), 1) == d);
                assert(on_face(a, first_dart(a, fs[2]), fs[2].len(), d));
            }
            if d.1 == 2 {
                assert(orbit(a, (2, 2), 0) == d);
                assert(on_face(a, first_dart(a, fs[4]), fs[4].len(), d));
            }
        }
        if d.0 == 3 {
            if d.1 == 0 {
                assert(orbit(a, (0, 0), 2) == d);
                assert(on_face(a, first_dart(a, fs[0]), fs[0].len(), d));
            }
            if d.1 == 1 {
                assert(orbit(a, (2, 2), 1) == d);
                assert(on_face(a, first_dart(a, fs[4]), fs[4].len(), d));
            }
            if d.1 == 2 {
                assert(orbit(a, (1, 1), 3) == d);
                assert(on_face(a, first_dart(a, fs[3]), fs[3].len(), d));
            }
        }
        if d.0 == 4 {
            if d.1 == 0 {
                assert(orbit(a, (4, 0), 0) == d);
                assert(on_face(a, first_dart(a, fs[5]), fs[5].len(), d));
            }
            if d.1 == 1 {
                assert(orbit(a, (0, 2), 3) == d);
                assert(on_face(a, first_dart(a, fs[2]), fs[2].len(), d));
            }
            if d.1 == 2 {
                assert(orbit(a, (0, 1), 1) == d);
                assert(on_face(a, first_dart(a, fs[1]), fs[1].len(), d));
            }
        }
        if d.0 == 5 {
            if d.1 == 0 {
                assert(orbit(a, (4, 0), 3) == d);
                assert(on_face(a, first_dart(a, fs[5]), fs[5].len(), d));
            }
            if d.1 == 1 {
                assert(orbit(a, (0, 1), 2) == d);
                assert(on_face(a, first_dart(a, fs[1]), fs[1].len(), d));
            }
            if d.1 == 2 {
                assert(orbit(a, (1, 1), 1) == d);
                assert(on_face(a, first_dart(a, fs[3]), fs[3].len(), d));
            }
        }
        if d.0 == 6 {
            if d.1 == 0 {
                assert(orbit(a, (4, 0), 1) == d);
                assert(on_face(a, first_dart(a, fs[5]), fs[5].len(), d));
            }
            if d.1 == 1 {
                assert(orbit(a, (2, 2), 3) == d);
                assert(on_face(a, first_dart(a, fs[4]), fs[4].len(), d));
            }
            if d.1 == 2 {
                assert(orbit(a, (0, 2), 2) == d);
                assert(on_face(a, first_dart(a, fs[2]), fs[2].len(), d));
            }
        }
        if d.0 == 7 {
            if d.1 == 0 {
                assert(orbit(a, (4, 0), 2) == d);
                assert(on_face(a, first_dart(a, fs[5]), fs[5].len(), d));
            }
            if d.1 == 1 {
                assert(orbit(a, (1, 1), 2) == d);
                assert(on_face(a, first_dart(a, fs[3]), fs[3].len(), d));
            }
            if d.1 == 2 {
                assert(orbit(a, (2, 2), 2) == d);
                assert(on_face(a, first_dart(a, fs[4]), fs[4].len(), d));
            }
        }
    }
    lemma_faces_of(a, fs);
    assert(faces_simple(fs));
    assert(edge_total(a) == 12);
}

/// The rings of the octahedron: six corners, each with four neighbours.
pub open spec fn octahedron_rings() -> Seq<Seq<usize>> {
    seq![
        seq![2usize, 5, 3, 4],
        seq![2usize, 4, 3, 5],
        seq![0usize, 4, 1, 5],
        seq![0usize, 5, 1, 4],
        seq![0usize, 3, 1, 2],
        seq![0usize, 2, 1, 3],
    ]
}

/// The faces of the octahedron, each as the list of its corners.
pub open spec fn octahedron_faces() -> Seq<Seq<usize>> {
    seq![
        seq![0usize, 2, 4],
        seq![0usize, 5, 2],
        seq![0usize, 3, 5],
        seq![0usize, 4, 3],
        seq![1usize, 2, 5],
        seq![1usize, 4, 2],
        seq![1usize, 3, 4],
        seq![1usize, 5, 3],
    ]
}

/// The rings of the octahedron are those of a graph; it has 24 darts.
proof fn lemma_octahedron_rings_valid()
    ensures
        is_rotation(octahedron_rings()),
        degree_sum(octahedron_rings(), 6) == 24,
{
    let a = octahedron_rings();
    assert(a.len() == 6);
    assert(a[0] == seq![2usize, 5, 3, 4]);
    assert(a[1] == seq![2usize, 4, 3, 5]);
    assert(a[2] == seq![0usize, 4, 1, 5]);
    assert(a[3] == seq![0usize, 5, 1, 4]);
    assert(a[4] == seq![0usize, 3, 1, 2]);
    assert(a[5] == seq![0usize, 2, 1, 3]);
    assert forall|v: int, k: int| #![trigger a[v][k]] is_dart(a, (v, k)) implies a[v][k] < a.len() && a[v][k] != v
        && a[a[v][k] as int].contains(v as usize) by {
        if v == 0 {
            if k == 0 {
                assert(a[2][0] == 0);
            }
            if k == 1 {
                assert(a[5][0] == 0);
            }
            if k == 2 {
                assert(a[3][0] == 0);
            }
            if k == 3 {
                assert(a[4][0] == 0);
            }
        }
        else if v == 1 {
            if k == 0 {
                assert(a[2][2] == 1);
            }
            if k == 1 {
                assert(a[4][2] == 1);
            }
            if k == 2 {
                assert(a[3][2] == 1);
            }
            if k == 3 {
                assert(a[5][2] == 1);
            }
        }
        else if v == 2 {
            if k == 0 {
                assert(a[0][0] == 2);
            }
            if k == 1 {
                assert(a[4][3] == 2);
            }
            if k == 2 {
                assert(a[1][0] == 2);
            }
            if k == 3 {
                assert(a[5][1] == 2);
            }
        }
        else if v == 3 {
            if k == 0 {
                assert(a[0][2] == 3);
            }
            if k == 1 {
                assert(a[5][3] == 3);
            }
            if k == 2 {
                assert(a[1][2] == 3);
            }
            if k == 3 {
                assert(a[4][1] == 3);
            }
        }
        else if v == 4 {
            if k == 0 {
                assert(a[0][3] == 4);
            }
            if k == 1 {
                assert(a[3][3] == 4);
            }
            if k == 2 {
                assert(a[1][1] == 4);
            }
            if k == 3 {
                assert(a[2][1] == 4);
            }
        }
        else if v == 5 {
            if k == 0 {
                assert(a[0][1] == 5);
            }
            if k == 1 {
                assert(a[2][3] == 5);
            }
            if k == 2 {
                assert(a[1][3] == 5);
            }
            if k == 3 {
                assert(a[3][1] == 5);
            }
        }
    }
    assert forall|v: int, j: int, k: int| #![trigger a[v][j], a[v][k]] is_dart(a, (v, j)) && is_dart(a, (v, k)) && j != k implies a[v][j] != a[v][k] by {
        if v == 0 {
            assert(a[0] == seq![2usize, 5, 3, 4]);
        }
        if v == 1 {
            assert(a[1] == seq![2usize, 4, 3, 5]);
        }
        if v == 2 {
            assert(a[2] == seq![0usize, 4, 1, 5]);
        }
        if v == 3 {
            assert(a[3] == seq![0usize, 5, 1, 4]);
        }
        if v == 4 {
            assert(a[4] == seq![0usize, 3, 1, 2]);
        }
        if v == 5 {
            assert(a[5] == seq![0usize, 2, 1, 3]);
        }
    }
    assert(degree_sum(a, 0) == 0);
    assert(degree_sum(a, 1) == 4);
    assert(degree_sum(a, 2) == 8);
    assert(degree_sum(a, 3) == 12);
    assert(degree_sum(a, 4) == 16);
    assert(degree_sum(a, 5) == 20);
    assert(degree_sum(a, 6) == 24);
}

/// The walk along face 0 of the octahedron.
proof fn lemma_octahedron_face_0()
    ensures
        orbit(octahedron_rings(), (0, 0), 0) == (0int, 0int),
        orbit(octahedron_rings(), (0, 0), 1) == (2int, 1int),
        orbit(octahedron_rings(), (0, 0), 2) == (4int, 0int),
        orbit(octahedron_rings(), (0, 0), 3) == (0int, 0int),
{
    let a = octahedron_rings();
    lemma_octahedron_rings_valid();
    lemma_next_at(a, (0, 0), 0);
    lemma_next_at(a, (2, 1), 3);
    lemma_next_at(a, (4, 0), 3);
    assert(orbit(a, (0, 0), 0) == (0int, 0int));
    assert(orbit(a, (0, 0), 1) == next(a, orbit(a, (0, 0), 0)));
    assert(orbit(a, (0, 0), 2) == next(a, orbit(a, (0, 0), 1)));
    assert(orbit(a, (0, 0), 3) == next(a, orbit(a, (0, 0), 2)));
}

/// The walk along face 1 of the octahedron.
proof fn lemma_octahedron_face_1()
    ensures
        orbit(octahedron_rings(), (0, 1), 0) == (0int, 1int),
        orbit(octahedron_rings(), (0, 1), 1) == (5int, 1int),
        orbit(octahedron_rings(), (0, 1), 2) == (2int, 0int),
        orbit(octahedron_rings(), (0, 1), 3) == (0int, 1int),
{
    let a = octahedron_rings();
    lemma_octahedron_rings_valid();
    lemma_next_at(a, (0, 1), 0);
    lemma_next_at(a, (5, 1), 3);
    lemma_next_at(a, (2, 0), 0);
    assert(orbit(a, (0, 1), 0) == (0int, 1int));
    assert(orbit(a, (0, 1), 1) == next(a, orbit(a, (0, 1), 0)));
    assert(orbit(a, (0, 1), 2) == next(a, orbit(a, (0, 1), 1)));
    assert(orbit(a, (0, 1), 3) == next(a, orbit(a, (0, 1), 2)));
}

/// The walk along face 2 of the octahedron.
proof fn lemma_octahedron_face_2()
    ensures
        orbit(octahedron_rings(), (0, 2), 0) == (0int, 2int),
        orbit(octahedron_rings(), (0, 2), 1) == (3int, 1int),
        orbit(octahedron_rings(), (0, 2), 2) == (5int, 0int),
        orbit(octahedron_rings(), (0, 2), 3) == (0int, 2int),
{
    let a = octahedron_rings();
    lemma_octahedron_rings_valid();
    lemma_next_at(a, (0, 2), 0);
    lemma_next_at(a, (3, 1), 3);
    lemma_next_at(a, (5, 0), 1);
    assert(orbit(a, (0, 2), 0) == (0int, 2int));
    assert(orbit(a, (0, 2), 1) == next(a, orbit(a, (0, 2), 0)));
    assert(orbit(a, (0, 2), 2) == next(a, orbit(a, (0, 2), 1)));
    assert(orbit(a, (0, 2), 3) == next(a, orbit(a, (0, 2), 2)));
}

/// The walk along face 3 of the octahedron.
proof fn lemma_octahedron_face_3()
    ensures
        orbit(octahedron_rings(), (0, 3), 0) == (0int, 3int),
        orbit(octahedron_rings(), (0, 3), 1) == (4int, 1int),
        orbit(octahedron_rings(), (0, 3), 2) == (3int, 0int),
        orbit(octahedron_rings(), (0, 3), 3) == (0int, 3int),
{
    let a = octahedron_rings();
    lemma_octahedron_rings_valid();
    lemma_next_at(a, (0, 3), 0);
    lemma_next_at(a, (4, 1), 3);
    lemma_next_at(a, (3, 0), 2);
    assert(orbit(a, (0, 3), 0) == (0int, 3int));
    assert(orbit(a, (0, 3), 1) == next(a, orbit(a, (0, 3), 0)));
    assert(orbit(a, (0, 3), 2) == next(a, orbit(a, (0, 3), 1)));
    assert(orbit(a, (0, 3), 3) == next(a, orbit(a, (0, 3), 2)));
}

/// The walk along face 4 of the octahedron.
proof fn lemma_octahedron_face_4()
    ensures
        orbit(octahedron_rings(), (1, 0), 0) == (1int, 0int),
        orbit(octahedron_rings(), (1, 0), 1) == (2int, 3int),
        orbit(octahedron_rings(), (1, 0), 2) == (5int, 2int),
        orbit(octahedron_rings(), (1, 0), 3) == (1int, 0int),
{
    let a = octahedron_rings();
    lemma_octahedron_rings_valid();
    lemma_next_at(a, (1, 0), 2);
    lemma_next_at(a, (2, 3), 1);
    lemma_next_at(a, (5, 2), 3);
    assert(orbit(a, (1, 0), 0) == (1int, 0int));
    assert(orbit(a, (1, 0), 1) == next(a, orbit(a, (1, 0), 0)));
    assert(orbit(a, (1, 0), 2) == next(a, orbit(a, (1, 0), 1)));
    assert(orbit(a, (1, 0), 3) == next(a, orbit(a, (1, 0), 2)));
}

/// The walk along face 5 of the octahedron.
proof fn lemma_octahedron_face_5()
    ensures
        orbit(octahedron_rings(), (1, 1), 0) == (1int, 1int),
        orbit(octahedron_rings(), (1, 1), 1) == (4int, 3int),
        orbit(octahedron_rings(), (1, 1), 2) == (2int, 2int),
        orbit(octahedron_rings(), (1, 1), 3) == (1int, 1int),
{
    let a = octahedron_rings();
    lemma_octahedron_rings_valid();
    lemma_next_at(a, (1, 1), 2);
    lemma_next_at(a, (4, 3), 1);
    lemma_next_at(a, (2, 2), 0);
    assert(orbit(a, (1, 1), 0) == (1int, 1int));
    assert(orbit(a, (1, 1), 1) == next(a, orbit(a, (1, 1), 0)));
    assert(orbit(a, (1, 1), 2) == next(a, orbit(a, (1, 1), 1)));
    assert(orbit(a, (1, 1), 3) == next(a, orbit(a, (1, 1), 2)));
}

/// The walk along face 6 of the octahedron.
proof fn lemma_octahedron_face_6()
    ensures
        orbit(octahedron_rings(), (1, 2), 0) == (1int, 2int),
        orbit(octahedron_rings(), (1, 2), 1) == (3int, 3int),
        orbit(octahedron_rings(), (1, 2), 2) == (4int, 2int),
        orbit(octahedron_rings(), (1, 2), 3) == (1int, 2int),
{
    let a = octahedron_rings();
    lemma_octahedron_rings_valid();
    lemma_next_at(a, (1, 2), 2);
    lemma_next_at(a, (3, 3), 1);
    lemma_next_at(a, (4, 2), 1);
    assert(orbit(a, (1, 2), 0) == (1int, 2int));
    assert(orbit(a, (1, 2), 1) == next(a, orbit(a, (1, 2), 0)));
    assert(orbit(a, (1, 2), 2) == next(a, orbit(a, (1, 2), 1)));
    assert(orbit(a, (1, 2), 3) == next(a, orbit(a, (1, 2), 2)));
}

/// The walk along face 7 of the octahedron.
proof fn lemma_octahedron_face_7()
    ensures
        orbit(octahedron_rings(), (1, 3), 0) == (1int, 3int),
        orbit(octahedron_rings(), (1, 3), 1) == (5int, 3int),
        orbit(octahedron_rings(), (1, 3), 2) == (3int, 2int),
        orbit(octahedron_rings(), (1, 3), 3) == (1int, 3int),
{
    let a = octahedron_rings();
    lemma_octahedron_rings_valid();
    lemma_next_at(a, (1, 3), 2);
    lemma_next_at(a, (5, 3), 1);
    lemma_next_at(a, (3, 2), 2);
    assert(orbit(a, (1, 3), 0) == (1int, 3int));
    assert(orbit(a, (1, 3), 1) == next(a, orbit(a, (1, 3), 0)));
    assert(orbit(a, (1, 3), 2) == next(a, orbit(a, (1, 3), 1)));
    assert(orbit(a, (1, 3), 3) == next(a, orbit(a, (1, 3), 2)));
}

/// The rings of the octahedron are those of a polyhedron, and its faces are the ones listed.
pub proof fn lemma_octahedron_is_polyhedral()
    ensures
        polyhedral(octahedron_rings()),
        faces_of(octahedron_rings()) == octahedron_faces(),
        edge_total(octahedron_rings()) == 12,
{
    let a = octahedron_rings();
    let fs = octahedron_faces();
    lemma_octahedron_rings_valid();
    assert(fs.len() == 8);
    assert(fs[0] == seq![0usize, 2, 4]);
    assert(fs[1] == seq![0usize, 5, 2]);
    assert(fs[2] == seq![0usize, 3, 5]);
    assert(fs[3] == seq![0usize, 4, 3]);
    assert(fs[4] == seq![1usize, 2, 5]);
    assert(fs[5] == seq![1usize, 4, 2]);
    assert(fs[6] == seq![1usize, 3, 4]);
    assert(fs[7] == seq![1usize, 5, 3]);
    lemma_octahedron_face_0();
    lemma_slot(a, 0, 0);
    assert(first_dart(a, fs[0]) == (0int, 0int));
    lemma_octahedron_face_1();
    lemma_slot(a, 0, 1);
    assert(first_dart(a, fs[1]) == (0int, 1int));
    lemma_octahedron_face_2();
    lemma_slot(a, 0, 2);
    assert(first_dart(a, fs[2]) == (0int, 2int));
    lemma_octahedron_face_3();
    lemma_slot(a, 0, 3);
    assert(first_dart(a, fs[3]) == (0int, 3int));
    lemma_octahedron_face_4();
    lemma_slot(a, 1, 0);
    assert(first_dart(a, fs[4]) == (1int, 0int));
    lemma_octahedron_face_5();
    lemma_slot(a, 1, 1);
    assert(first_dart(a, fs[5]) == (1int, 1int));
    lemma_octahedron_face_6();
    lemma_slot(a, 1, 2);
    assert(first_dart(a, fs[6]) == (1int, 2int));
    lemma_octahedron_face_7();
    lemma_slot(a, 1, 3);
    assert(first_dart(a, fs[7]) == (1int, 3int));
    assert forall|j: int| 0 <= j < fs.len() implies #[trigger] face_listed(a, fs, j) by {
        if j == 0 {
            assert forall|i: nat| i < fs[0].len() implies fs[0][i as int] == (#[trigger] orbit(a, (0, 0), i)).0 by {
                assert(i == 0 || i == 1 || i == 2);
            }
            assert forall|i: nat| 0 < i < fs[0].len() implies dart_lt((0, 0), #[trigger] orbit(a, (0, 0), i)) by {
                assert(i == 1 || i == 2);
            }
        }
        if j == 1 {
            assert forall|i: nat| i < fs[1].len() implies fs[1][i as int] == (#[trigger] orbit(a, (0, 1), i)).0 by {
                assert(i == 0 || i == 1 || i == 2);
            }
            assert forall|i: nat| 0 < i < fs[1].len() implies dart_lt((0, 1), #[trigger] orbit(a, (0, 1), i)) by {
                assert(i == 1 || i == 2);
            }
        }
        if j == 2 {
            assert forall|i: nat| i < fs[2].len() implies fs[2][i as int] == (#[trigger] orbit(a, (0, 2), i)).0 by {
                assert(i == 0 || i == 1 || i == 2);
            }
            assert forall|i: nat| 0 < i < fs[2].len() implies dart_lt((0, 2), #[trigger] orbit(a, (0, 2), i)) by {
                assert(i == 1 || i == 2);
            }
        }
        if j == 3 {
            assert forall|i: nat| i < fs[3].len() implies fs[3][i as int] == (#[trigger] orbit(a, (0, 3), i)).0 by {
                assert(i == 0 || i == 1 || i == 2);
            }
            assert forall|i: nat| 0 < i < fs[3].len() implies dart_lt((0, 3), #[trigger] orbit(a, (0, 3), i)) by {
                assert(i == 1 || i == 2);
            }
        }
        if j == 4 {
            assert forall|i: nat| i < fs[4].len() implies fs[4][i as int] == (#[trigger] orbit(a, (1, 0), i)).0 by {
                assert(i == 0 || i == 1 || i == 2);
            }
            assert forall|i: nat| 0 < i < fs[4].len() implies dart_lt((1, 0), #[trigger] orbit(a, (1, 0), i)) by {
                assert(i == 1 || i == 2);
            }
        }
        if j == 5 {
            assert forall|i: nat| i < fs[5].len() implies fs[5][i as int] == (#[trigger] orbit(a, (1, 1), i)).0 by {
                assert(i == 0 || i == 1 || i == 2);
            }
            assert forall|i: nat| 0 < i < fs[5].len() implies dart_lt((1, 1), #[trigger] orbit(a, (1, 1), i)) by {
                assert(i == 1 || i == 2);
            }
        }
        if j == 6 {
            assert forall|i: nat| i < fs[6].len() implies fs[6][i as int] == (#[trigger] orbit(a, (1, 2), i)).0 by {
                assert(i == 0 || i == 1 || i == 2);
            }
            assert forall|i: nat| 0 < i < fs[6].len() implies dart_lt((1, 2), #[trigger] orbit(a, (1, 2), i)) by {
                assert(i == 1 || i == 2);
            }
        }
        if j == 7 {
            assert forall|i: nat| i < fs[7].len() implies fs[7][i as int] == (#[trigger] orbit(a, (1, 3), i)).0 by {
                assert(i == 0 || i == 1 || i == 2);
            }
            assert forall|i: nat| 0 < i < fs[7].len() implies dart_lt((1, 3), #[trigger] orbit(a, (1, 3), i)) by {
                assert(i == 1 || i == 2);
            }
        }
    }
    assert forall|j: int, j2: int| 0 <= j < j2 < fs.len() implies #[trigger] in_order(a, fs, j, j2) by {
        assert(j == 0 || j == 1 || j == 2 || j == 3 || j == 4 || j == 5 || j == 6 || j == 7);
        assert(j2 == 0 || j2 == 1 || j2 == 2 || j2 == 3 || j2 == 4 || j2 == 5 || j2 == 6 || j2 == 7);
    }
    assert forall|d: (int, int)| #[trigger] is_dart(a, d) implies on_a_face(a, fs, d) by {
        if d.0 == 0 {
            if d.1 == 0 {
                assert(orbit(a, (0, 0), 0) == d);
                assert(on_face(a, first_dart(a, fs[0]), fs[0].len(), d));
            }
            if d.1 == 1 {
                assert(orbit(a, (0, 1), 0) == d);
                assert(on_face(a, first_dart(a, fs[1]), fs[1].len(), d));
            }
            if d.1 == 2 {
                assert(orbit(a, (0, 2), 0) == d);
                assert(on_face(a, first_dart(a, fs[2]), fs[2].len(), d));
            }
            if d.1 == 3 {
                assert(orbit(a, (0, 3), 0) == d);
                assert(on_face(a, first_dart(a, fs[3]), fs[3].len(), d));
            }
        }
        if d.0 == 1 {
            if d.1 == 0 {
                assert(orbit(a, (1, 0), 0) == d);
                assert(on_face(a, first_dart(a, fs[4]), fs[4].len(), d));
            }
            if d.1 == 1 {
                assert(orbit(a, (1, 1), 0) == d);
                assert(on_face(a, first_dart(a, fs[5]), fs[5].len(), d));
            }
            if d.1 == 2 {
                assert(orbit(a, (1, 2), 0) == d);
                assert(on_face(a, first_dart(a, fs[6]), fs[6].len(), d));
            }
            if d.1 == 3 {
                assert(orbit(a, (1, 3), 0) == d);
                assert(on_face(a, first_dart(a, fs[7]), fs[7].len(), d));
            }
        }
        if d.0 == 2 {
            if d.1 == 0 {
                assert(orbit(a, (0, 1), 2) == d);
                assert(on_face(a, first_dart(a, fs[1]), fs[1].len(), d));
            }
            if d.1 == 1 {
                assert(orbit(a, (0, 0), 1) == d);
                assert(on_face(a, first_dart(a, fs[0]), fs[0].len(), d));
            }
            if d.1 == 2 {
                assert(orbit(a, (1, 1), 2) == d);
                assert(on_face(a, first_dart(a, fs[5]), fs[5].len(), d));
            }
            if d.1 == 3 {
                assert(orbit(a, (1, 0), 1) == d);
                assert(on_face(a, first_dart(a, fs[4]), fs[4].len(), d));
            }
        }
        if d.0 == 3 {
            if d.1 == 0 {
                assert(orbit(a, (0, 3), 2) == d);
                assert(on_face(a, first_dart(a, fs[3]), fs[3].len(), d));
            }
            if d.1 == 1 {
                assert(orbit(a, (0, 2), 1) == d);
                assert(on_face(a, first_dart(a, fs[2]), fs[2].len(), d));
            }
            if d.1 == 2 {
                assert(orbit(a, (1, 3), 2) == d);
                assert(on_face(a, first_dart(a, fs[7]), fs[7].len(), d));
            }
            if d.1 == 3 {
                assert(orbit(a, (1, 2), 1) == d);
                assert(on_face(a, first_dart(a, fs[6]), fs[6].len(), d));
            }
        }
        if d.0 == 4 {
            if d.1 == 0 {
                assert(orbit(a, (0, 0), 2) == d);
                assert(on_face(a, first_dart(a, fs[0]), fs[0].len(), d));
            }
            if d.1 == 1 {
                assert(orbit(a, (0, 3), 1) == d);
                assert(on_face(a, first_dart(a, fs[3]), fs[3].len(), d));
            }
            if d.1 == 2 {
                assert(orbit(a, (1, 2), 2) == d);
                assert(on_face(a, first_dart(a, fs[6]), fs[6].len(), d));
            }
            if d.1 == 3 {
                assert(orbit(a, (1, 1), 1) == d);
                assert(on_face(a, first_dart(a, fs[5]), fs[5].len(), d));
            }
        }
        if d.0 == 5 {
            if d.1 == 0 {
                assert(orbit(a, (0, 2), 2) == d);
                assert(on_face(a, first_dart(a, fs[2]), fs[2].len(), d));
            }
            if d.1 == 1 {
                assert(orbit(a, (0, 1), 1) == d);
                assert(on_face(a, first_dart(a, fs[1]), fs[1].len(), d));
            }
            if d.1 == 2 {
                assert(orbit(a, (1, 0), 2) == d);
                assert(on_face(a, first_dart(a, fs[4]), fs[4].len(), d));
            }
            if d.1 == 3 {
                assert(orbit(a, (1, 3), 1) == d);
                assert(on_face(a, first_dart(a, fs[7]), fs[7].len(), d));
            }
        }
    }
    lemma_faces_of(a, fs);
    assert(faces_simple(fs));
    assert(edge_total(a) == 12);
}

/// The rings of the tetrahedron: four corners, each with three neighbours.
pub open spec fn tetrahedron_rings() -> Seq<Seq<usize>> {
    seq![
        seq![1usize, 3, 2],
        seq![0usize, 2, 3],
        seq![0usize, 3, 1],
        seq![0usize, 1, 2],
    ]
}

/// The faces of the tetrahedron, each as the list of its corners.
pub open spec fn tetrahedron_faces() -> Seq<Seq<usize>> {
    seq![
        seq![0usize, 1, 2],
        seq![0usize, 3, 1],
        seq![0usize, 2, 3],
        seq![1usize, 3, 2],
    ]
}

/// The rings of the tetrahedron are those of a graph; it has 12 darts.
proof fn lemma_tetrahedron_rings_valid()
    ensures
        is_rotation(tetrahedron_rings()),
        degree_sum(tetrahedron_rings(), 4) == 12,
{
    let a = tetrahedron_rings();
    assert(a.len() == 4);
    assert(a[0] == seq![1usize, 3, 2]);
    assert(a[1] == seq![0usize, 2, 3]);
    assert(a[2] == seq![0usize, 3, 1]);
    assert(a[3] == seq![0usize, 1, 2]);
    assert forall|v: int, k: int| #![trigger a[v][k]] is_dart(a, (v, k)) implies a[v][k] < a.len() && a[v][k] != v
        && a[a[v][k] as int].contains(v as usize) by {
        if v == 0 {
            if k == 0 {
                assert(a[1][0] == 0);
            }
            if k == 1 {
                assert(a[3][0] == 0);
            }
            if k == 2 {
                assert(a[2][0] == 0);
            }
        }
        else if v == 1 {
            if k == 0 {
                assert(a[0][0] == 1);
            }
            if k == 1 {
                assert(a[2][2] == 1);
            }
            if k == 2 {
                assert(a[3][1] == 1);
            }
        }
        else if v == 2 {
            if k == 0 {
                assert(a[0][2] == 2);
            }
            if k == 1 {
                assert(a[3][2] == 2);
            }
            if k == 2 {
                assert(a[1][1] == 2);
            }
        }
        else if v == 3 {
            if k == 0 {
                assert(a[0][1] == 3);
            }
            if k == 1 {
                assert(a[1][2] == 3);
            }
            if k == 2 {
                assert(a[2][1] == 3);
            }
        }
    }
    assert forall|v: int, j: int, k: int| #![trigger a[v][j], a[v][k]] is_dart(a, (v, j)) && is_dart(a, (v, k)) && j != k implies a[v][j] != a[v][k] by {
        if v == 0 {
            assert(a[0] == seq![1usize, 3, 2]);
        }
        if v == 1 {
            assert(a[1] == seq![0usize, 2, 3]);
        }
        if v == 2 {
            assert(a[2] == seq![0usize, 3, 1]);
        }
        if v == 3 {
            assert(a[3] == seq![0usize, 1, 2]);
        }
    }
    assert(degree_sum(a, 0) == 0);
    assert(degree_sum(a, 1) == 3);
    assert(degree_sum(a, 2) == 6);
    assert(degree_sum(a, 3) == 9);
    assert(degree_sum(a, 4) == 12);
}

/// The walk along face 0 of the tetrahedron.
proof fn lemma_tetrahedron_face_0()
    ensures
        orbit(tetrahedron_rings(), (0, 0), 0) == (0int, 0int),
        orbit(tetrahedron_rings(), (0, 0), 1) == (1int, 1int),
        orbit(tetrahedron_rings(), (0, 0), 2) == (2int, 0int),
        orbit(tetrahedron_rings(), (0, 0), 3) == (0int, 0int),
{
    let a = tetrahedron_rings();
    lemma_tetrahedron_rings_valid();
    lemma_next_at(a, (0, 0), 0);
    lemma_next_at(a, (1, 1), 2);
    lemma_next_at(a, (2, 0), 2);
    assert(orbit(a, (0, 0), 0) == (0int, 0int));
    assert(orbit(a, (0, 0), 1) == next(a, orbit(a, (0, 0), 0)));
    assert(orbit(a, (0, 0), 2) == next(a, orbit(a, (0, 0), 1)));
    assert(orbit(a, (0, 0), 3) == next(a, orbit(a, (0, 0), 2)));
}

/// The walk along face 1 of the tetrahedron.
proof fn lemma_tetrahedron_face_1()
    ensures
        orbit(tetrahedron_rings(), (0, 1), 0) == (0int, 1int),
        orbit(tetrahedron_rings(), (0, 1), 1) == (3int, 1int),
        orbit(tetrahedron_rings(), (0, 1), 2) == (1int, 0int),
        orbit(tetrahedron_rings(), (0, 1), 3) == (0int, 1int),
{
    let a = tetrahedron_rings();
    lemma_tetrahedron_rings_valid();
    lemma_next_at(a, (0, 1), 0);
    lemma_next_at(a, (3, 1), 2);
    lemma_next_at(a, (1, 0), 0);
    assert(orbit(a, (0, 1), 0) == (0int, 1int));
    assert(orbit(a, (0, 1), 1) == next(a, orbit(a, (0, 1), 0)));
    assert(orbit(a, (0, 1), 2) == next(a, orbit(a, (0, 1), 1)));
    assert(orbit(a, (0, 1), 3) == next(a, orbit(a, (0, 1), 2)));
}

/// The walk along face 2 of the tetrahedron.
proof fn lemma_tetrahedron_face_2()
    ensures
        orbit(tetrahedron_rings(), (0, 2), 0) == (0int, 2int),
        orbit(tetrahedron_rings(), (0, 2), 1) == (2int, 1int),
        orbit(tetrahedron_rings(), (0, 2), 2) == (3int, 0int),
        orbit(tetrahedron_rings(), (0, 2), 3) == (0int, 2int),
{
    let a = tetrahedron_rings();
    lemma_tetrahedron_rings_valid();
    lemma_next_at(a, (0, 2), 0);
    lemma_next_at(a, (2, 1), 2);
    lemma_next_at(a, (3, 0), 1);
    assert(orbit(a, (0, 2), 0) == (0int, 2int));
    assert(orbit(a, (0, 2), 1) == next(a, orbit(a, (0, 2), 0)));
    assert(orbit(a, (0, 2), 2) == next(a, orbit(a, (0, 2), 1)));
    assert(orbit(a, (0, 2), 3) == next(a, orbit(a, (0, 2), 2)));
}

/// The walk along face 3 of the tetrahedron.
proof fn lemma_tetrahedron_face_3()
    ensures
        orbit(tetrahedron_rings(), (1, 2), 0) == (1int, 2int),
        orbit(tetrahedron_rings(), (1, 2), 1) == (3int, 2int),
        orbit(tetrahedron_rings(), (1, 2), 2) == (2int, 2int),
        orbit(tetrahedron_rings(), (1, 2), 3) == (1int, 2int),
{
    let a = tetrahedron_rings();
    lemma_tetrahedron_rings_valid();
    lemma_next_at(a, (1, 2), 1);
    lemma_next_at(a, (3, 2), 1);
    lemma_next_at(a, (2, 2), 1);
    assert(orbit(a, (1, 2), 0) == (1int, 2int));
    assert(orbit(a, (1, 2), 1) == next(a, orbit(a, (1, 2), 0)));
    assert(orbit(a, (1, 2), 2) == next(a, orbit(a, (1, 2), 1)));
    assert(orbit(a, (1, 2), 3) == next(a, orbit(a, (1, 2), 2)));
}

/// The rings of the tetrahedron are those of a polyhedron, and its faces are the ones listed.
pub proof fn lemma_tetrahedron_is_polyhedral()
    ensures
        polyhedral(tetrahedron_rings()),
        faces_of(tetrahedron_rings()) == tetrahedron_faces(),
        edge_total(tetrahedron_rings()) == 6,
{
    let a = tetrahedron_rings();
    let fs = tetrahedron_faces();
    lemma_tetrahedron_rings_valid();
    assert(fs.len() == 4);
    assert(fs[0] == seq![0usize, 1, 2]);
    assert(fs[1] == seq![0usize, 3, 1]);
    assert(fs[2] == seq![0usize, 2, 3]);
    assert(fs[3] == seq![1usize, 3, 2]);
    lemma_tetrahedron_face_0();
    lemma_slot(a, 0, 0);
    assert(first_dart(a, fs[0]) == (0int, 0int));
    lemma_tetrahedron_face_1();
    lemma_slot(a, 0, 1);
    assert(first_dart(a, fs[1]) == (0int, 1int));
    lemma_tetrahedron_face_2();
    lemma_slot(a, 0, 2);
    assert(first_dart(a, fs[2]) == (0int, 2int));
    lemma_tetrahedron_face_3();
    lemma_slot(a, 1, 2);
    assert(first_dart(a, fs[3]) == (1int, 2int));
    assert forall|j: int| 0 <= j < fs.len() implies #[trigger] face_listed(a, fs, j) by {
        if j == 0 {
            assert forall|i: nat| i < fs[0].len() implies fs[0][i as int] == (#[trigger] orbit(a, (0, 0), i)).0 by {
                assert(i == 0 || i == 1 || i == 2);
            }
            assert forall|i: nat| 0 < i < fs[0].len() implies dart_lt((0, 0), #[trigger] orbit(a, (0, 0), i)) by {
                assert(i == 1 || i == 2);
            }
        }
        if j == 1 {
            assert forall|i: nat| i < fs[1].len() implies fs[1][i as int] == (#[trigger] orbit(a, (0, 1), i)).0 by {
                assert(i == 0 || i == 1 || i == 2);
            }
            assert forall|i: nat| 0 < i < fs[1].len() implies dart_lt((0, 1), #[trigger] orbit(a, (0, 1), i)) by {
                assert(i == 1 || i == 2);
            }
        }
        if j == 2 {
            assert forall|i: nat| i < fs[2].len() implies fs[2][i as int] == (#[trigger] orbit(a, (0, 2), i)).0 by {
                assert(i == 0 || i == 1 || i == 2);
            }
            assert forall|i: nat| 0 < i < fs[2].len() implies dart_lt((0, 2), #[trigger] orbit(a, (0, 2), i)) by {
                assert(i == 1 || i == 2);
            }
        }
        if j == 3 {
            assert forall|i: nat| i < fs[3].len() implies fs[3][i as int] == (#[trigger] orbit(a, (1, 2), i)).0 by {
                assert(i == 0 || i == 1 || i == 2);
            }
            assert forall|i: nat| 0 < i < fs[3].len() implies dart_lt((1, 2), #[trigger] orbit(a, (1, 2), i)) by {
                assert(i == 1 || i == 2);
            }
        }
    }
    assert forall|j: int, j2: int| 0 <= j < j2 < fs.len() implies #[trigger] in_order(a, fs, j, j2) by {
        assert(j == 0 || j == 1 || j == 2 || j == 3);
        assert(j2 == 0 || j2 == 1 || j2 == 2 || j2 == 3);
    }
    assert forall|d: (int, int)| #[trigger] is_dart(a, d) implies on_a_face(a, fs, d) by {
        if d.0 == 0 {
            if d.1 == 0 {
                assert(orbit(a, (0, 0), 0) == d);
                assert(on_face(a, first_dart(a, fs[0]), fs[0].len(), d));
            }
            if d.1 == 1 {
                assert(orbit(a, (0, 1), 0) == d);
                assert(on_face(a, first_dart(a, fs[1]), fs[1].len(), d));
            }
            if d.1 == 2 {
                assert(orbit(a, (0, 2), 0) == d);
                assert(on_face(a, first_dart(a, fs[2]), fs[2].len(), d));
            }
        }
        if d.0 == 1 {
            if d.1 == 0 {
                assert(orbit(a, (0, 1), 2) == d);
                assert(on_face(a, first_dart(a, fs[1]), fs[1].len(), d));
            }
            if d.1 == 1 {
                assert(orbit(a, (0, 0), 1) == d);
                assert(on_face(a, first_dart(a, fs[0]), fs[0].len(), d));
            }
            if d.1 == 2 {
                assert(orbit(a, (1, 2), 0) == d);
                assert(on_face(a, first_dart(a, fs[3]), fs[3].len(), d));
            }
        }
        if d.0 == 2 {
            if d.1 == 0 {
                assert(orbit(a, (0, 0), 2) == d);
                assert(on_face(a, first_dart(a, fs[0]), fs[0].len(), d));
            }
            if d.1 == 1 {
                assert(orbit(a, (0, 2), 1) == d);
                assert(on_face(a, first_dart(a, fs[2]), fs[2].len(), d));
            }
            if d.1 == 2 {
                assert(orbit(a, (1, 2), 2) == d);
                assert(on_face(a, first_dart(a, fs[3]), fs[3].len(), d));
            }
        }
        if d.0 == 3 {
            if d.1 == 0 {
                assert(orbit(a, (0, 2), 2) == d);
                assert(on_face(a, first_dart(a, fs[2]), fs[2].len(), d));
            }
            if d.1 == 1 {
                assert(orbit(a, (0, 1), 1) == d);
                assert(on_face(a, first_dart(a, fs[1]), fs[1].len(), d));
            }
            if d.1 == 2 {
                assert(orbit(a, (1, 2), 1) == d);
                assert(on_face(a, first_dart(a, fs[3]), fs[3].len(), d));
            }
        }
    }
    lemma_faces_of(a, fs);
    assert(faces_simple(fs));
    assert(edge_total(a) == 6);
}

/// The labels of the darts of the box: every face has a label below zero of its own.
pub open spec fn box_labels() -> Seq<Seq<i32>> {
    seq![
        seq![-5i32, -3i32, -1i32],
        seq![-5i32, -2i32, -3i32],
        seq![-5i32, -1i32, -4i32],
        seq![-5i32, -4i32, -2i32],
        seq![-6i32, -1i32, -3i32],
        seq![-6i32, -3i32, -2i32],
        seq![-6i32, -4i32, -1i32],
        seq![-6i32, -2i32, -4i32],
    ]
}

/// The labels of the faces of the box, in the order of its faces.
pub open spec fn box_face_labels() -> Seq<i32> {
    seq![-5i32, -3i32, -1i32, -2i32, -4i32, -6i32]
}

/// The labels of the box fit its graph, and give its faces the labels listed.
pub proof fn lemma_box_labels_fit()
    ensures
        labels_fit(box_rings(), box_labels()),
        face_labels(box_rings(), box_labels()) == box_face_labels(),
{
    let a = box_rings();
    let l = box_labels();
    let fs = box_faces();
    lemma_box_rings_valid();
    lemma_box_is_polyhedral();
    assert(l.len() == 8);
    assert(l[0] == seq![-5i32, -3i32, -1i32]);
    assert(l[1] == seq![-5i32, -2i32, -3i32]);
    assert(l[2] == seq![-5i32, -1i32, -4i32]);
    assert(l[3] == seq![-5i32, -4i32, -2i32]);
    assert(l[4] == seq![-6i32, -1i32, -3i32]);
    assert(l[5] == seq![-6i32, -3i32, -2i32]);
    assert(l[6] == seq![-6i32, -4i32, -1i32]);
    assert(l[7] == seq![-6i32, -2i32, -4i32]);
    assert(labels_shaped(a, l));
    assert forall|d: (int, int)| #[trigger] is_dart(a, d) implies l[d.0][d.1] == l[next(a, d).0][next(a, d).1] by {
        if d.0 == 0 {
            if d.1 == 0 {
                lemma_next_at(a, (0, 0), 2);
                assert(next(a, d) == (1int, 0int));
            }
            if d.1 == 1 {
                lemma_next_at(a, (0, 1), 1);
                assert(next(a, d) == (4int, 2int));
            }
            if d.1 == 2 {
                lemma_next_at(a, (0, 2), 0);
                assert(next(a, d) == (2int, 1int));
            }
        }
        if d.0 == 1 {
            if d.1 == 0 {
                lemma_next_at(a, (1, 0), 2);
                assert(next(a, d) == (3int, 0int));
            }
            if d.1 == 1 {
                lemma_next_at(a, (1, 1), 1);
                assert(next(a, d) == (5int, 2int));
            }
            if d.1 == 2 {
                lemma_next_at(a, (1, 2), 0);
                assert(next(a, d) == (0int, 1int));
            }
        }
        if d.0 == 2 {
            if d.1 == 0 {
                lemma_next_at(a, (2, 0), 2);
                assert(next(a, d) == (0int, 0int));
            }
            if d.1 == 1 {
                lemma_next_at(a, (2, 1), 1);
                assert(next(a, d) == (6int, 2int));
            }
            if d.1 == 2 {
                lemma_next_at(a, (2, 2), 0);
                assert(next(a, d) == (3int, 1int));
            }
        }
        if d.0 == 3 {
            if d.1 == 0 {
                lemma_next_at(a, (3, 0), 2);
                assert(next(a, d) == (2int, 0int));
            }
            if d.1 == 1 {
                lemma_next_at(a, (3, 1), 1);
                assert(next(a, d) == (7int, 2int));
            }
            if d.1 == 2 {
                lemma_next_at(a, (3, 2), 0);
                assert(next(a, d) == (1int, 1int));
            }
        }
        if d.0 == 4 {
            if d.1 == 0 {
                lemma_next_at(a, (4, 0), 2);
                assert(next(a, d) == (6int, 0int));
            }
            if d.1 == 1 {
                lemma_next_at(a, (4, 1), 1);
                assert(next(a, d) == (0int, 2int));
            }
            if d.1 == 2 {
                lemma_next_at(a, (4, 2), 0);
                assert(next(a, d) == (5int, 1int));
            }
        }
        if d.0 == 5 {
            if d.1 == 0 {
                lemma_next_at(a, (5, 0), 2);
                assert(next(a, d) == (4int, 0int));
            }
            if d.1 == 1 {
                lemma_next_at(a, (5, 1), 1);
                assert(next(a, d) == (1int, 2int));
            }
            if d.1 == 2 {
                lemma_next_at(a, (5, 2), 0);
                assert(next(a, d) == (7int, 1int));
            }
        }
        if d.0 == 6 {
            if d.1 == 0 {
                lemma_next_at(a, (6, 0), 2);
                assert(next(a, d) == (7int, 0int));
            }
            if d.1 == 1 {
                lemma_next_at(a, (6, 1), 1);
                assert(next(a, d) == (2int, 2int));
            }
            if d.1 == 2 {
                lemma_next_at(a, (6, 2), 0);
                assert(next(a, d) == (4int, 1int));
            }
        }
        if d.0 == 7 {
            if d.1 == 0 {
                lemma_next_at(a, (7, 0), 2);
                assert(next(a, d) == (5int, 0int));
            }
            if d.1 == 1 {
                lemma_next_at(a, (7, 1), 1);
                assert(next(a, d) == (3int, 2int));
            }
            if d.1 == 2 {
                lemma_next_at(a, (7, 2), 0);
                assert(next(a, d) == (6int, 1int));
            }
        }
    }
    assert(fs.len() == 6);
    lemma_slot(a, 0, 0);
    assert(fs[0] == seq![0usize, 1, 3, 2]);
    assert(first_dart(a, fs[0]) == (0int, 0int));
    assert(label_of_face(a, l, fs[0]) == -5i32);
    lemma_slot(a, 0, 1);
    assert(fs[1] == seq![0usize, 4, 5, 1]);
    assert(first_dart(a, fs[1]) == (0int, 1int));
    assert(label_of_face(a, l, fs[1]) == -3i32);
    lemma_slot(a, 0, 2);
    assert(fs[2] == seq![0usize, 2, 6, 4]);
    assert(first_dart(a, fs[2]) == (0int, 2int));
    assert(label_of_face(a, l, fs[2]) == -1i32);
    lemma_slot(a, 1, 1);
    assert(fs[3] == seq![1usize, 5, 7, 3]);
    assert(first_dart(a, fs[3]) == (1int, 1int));
    assert(label_of_face(a, l, fs[3]) == -2i32);
    lemma_slot(a, 2, 2);
    assert(fs[4] == seq![2usize, 3, 7, 6]);
    assert(first_dart(a, fs[4]) == (2int, 2int));
    assert(label_of_face(a, l, fs[4]) == -4i32);
    lemma_slot(a, 4, 0);
    assert(fs[5] == seq![4usize, 6, 7, 5]);
    assert(first_dart(a, fs[5]) == (4int, 0int));
    assert(label_of_face(a, l, fs[5]) == -6i32);
    assert(face_labels(a, l) =~= box_face_labels());
}

/// The rings of the box, ready to be held.
pub(crate) fn box_ring_table() -> (rings: Vec<Vec<usize>>)
    ensures
        rows(rings@) == box_rings(),
{
    let mut rings: Vec<Vec<usize>> = Vec::new();
    rings.push(ring3(1, 4, 2));
    rings.push(ring3(3, 5, 0));
    rings.push(ring3(0, 6, 3));
    rings.push(ring3(2, 7, 1));
    rings.push(ring3(6, 0, 5));
    rings.push(ring3(4, 1, 7));
    rings.push(ring3(7, 2, 4));
    rings.push(ring3(5, 3, 6));
    assert(rows(rings@) =~= box_rings());
    rings
}

/// The labels of the box, ready to be held.
pub(crate) fn box_label_table() -> (labels: Vec<Vec<i32>>)
    ensures
        rows(labels@) == box_labels(),
{
    let mut labels: Vec<Vec<i32>> = Vec::new();
    labels.push(row3(-5, -3, -1));
    labels.push(row3(-5, -2, -3));
    labels.push(row3(-5, -1, -4));
    labels.push(row3(-5, -4, -2));
    labels.push(row3(-6, -1, -3));
    labels.push(row3(-6, -3, -2));
    labels.push(row3(-6, -4, -1));
    labels.push(row3(-6, -2, -4));
    assert(rows(labels@) =~= box_labels());
    labels
}

/// The labels of the darts of the octahedron: every face has a label below zero of its own.
pub open spec fn octahedron_labels() -> Seq<Seq<i32>> {
    seq![
        seq![-1i32, -2i32, -3i32, -4i32],
        seq![-5i32, -6i32, -7i32, -8i32],
        seq![-2i32, -1i32, -6i32, -5i32],
        seq![-4i32, -3i32, -8i32, -7i32],
        seq![-1i32, -4i32, -7i32, -6i32],
        seq![-3i32, -2i32, -5i32, -8i32],
    ]
}

/// The labels of the faces of the octahedron, in the order of its faces.
pub open spec fn octahedron_face_labels() -> Seq<i32> {
    seq![-1i32, -2i32, -3i32, -4i32, -5i32, -6i32, -7i32, -8i32]
}

/// The labels of the octahedron fit its graph, and give its faces the labels listed.
pub proof fn lemma_octahedron_labels_fit()
    ensures
        labels_fit(octahedron_rings(), octahedron_labels()),
        face_labels(octahedron_rings(), octahedron_labels()) == octahedron_face_labels(),
{
    let a = octahedron_rings();
    let l = octahedron_labels();
    let fs = octahedron_faces();
    lemma_octahedron_rings_valid();
    lemma_octahedron_is_polyhedral();
    assert(l.len() == 6);
    assert(l[0] == seq![-1i32, -2i32, -3i32, -4i32]);
    assert(l[1] == seq![-5i32, -6i32, -7i32, -8i32]);
    assert(l[2] == seq![-2i32, -1i32, -6i32, -5i32]);
    assert(l[3] == seq![-4i32, -3i32, -8i32, -7i32]);
    assert(l[4] == seq![-1i32, -4i32, -7i32, -6i32]);
    assert(l[5] == seq![-3i32, -2i32, -5i32, -8i32]);
    assert(labels_shaped(a, l));
    assert forall|d: (int, int)| #[trigger] is_dart(a, d) implies l[d.0][d.1] == l[next(a, d).0][next(a, d).1] by {
        if d.0 == 0 {
            if d.1 == 0 {
                lemma_next_at(a, (0, 0), 0);
                assert(next(a, d) == (2int, 1int));
            }
            if d.1 == 1 {
                lemma_next_at(a, (0, 1), 0);
                assert(next(a, d) == (5int, 1int));
            }
            if d.1 == 2 {
                lemma_next_at(a, (0, 2), 0);
                assert(next(a, d) == (3int, 1int));
            }
            if d.1 == 3 {
                lemma_next_at(a, (0, 3), 0);
                assert(next(a, d) == (4int, 1int));
            }
        }
        if d.0 == 1 {
            if d.1 == 0 {
                lemma_next_at(a, (1, 0), 2);
                assert(next(a, d) == (2int, 3int));
            }
            if d.1 == 1 {
                lemma_next_at(a, (1, 1), 2);
                assert(next(a, d) == (4int, 3int));
            }
            if d.1 == 2 {
                lemma_next_at(a, (1, 2), 2);
                assert(next(a, d) == (3int, 3int));
            }
            if d.1 == 3 {
                lemma_next_at(a, (1, 3), 2);
                assert(next(a, d) == (5int, 3int));
            }
        }
        if d.0 == 2 {
            if d.1 == 0 {
                lemma_next_at(a, (2, 0), 0);
                assert(next(a, d) == (0int, 1int));
            }
            if d.1 == 1 {
                lemma_next_at(a, (2, 1), 3);
                assert(next(a, d) == (4int, 0int));
            }
            if d.1 == 2 {
                lemma_next_at(a, (2, 2), 0);
                assert(next(a, d) == (1int, 1int));
            }
            if d.1 == 3 {
                lemma_next_at(a, (2, 3), 1);
                assert(next(a, d) == (5int, 2int));
            }
        }
        if d.0 == 3 {
            if d.1 == 0 {
                lemma_next_at(a, (3, 0), 2);
                assert(next(a, d) == (0int, 3int));
            }
            if d.1 == 1 {
                lemma_next_at(a, (3, 1), 3);
                assert(next(a, d) == (5int, 0int));
            }
            if d.1 == 2 {
                lemma_next_at(a, (3, 2), 2);
                assert(next(a, d) == (1int, 3int));
            }
            if d.1 == 3 {
                lemma_next_at(a, (3, 3), 1);
                assert(next(a, d) == (4int, 2int));
            }
        }
        if d.0 == 4 {
            if d.1 == 0 {
                lemma_next_at(a, (4, 0), 3);
                assert(next(a, d) == (0int, 0int));
            }
            if d.1 == 1 {
                lemma_next_at(a, (4, 1), 3);
                assert(next(a, d) == (3int, 0int));
            }
            if d.1 == 2 {
                lemma_next_at(a, (4, 2), 1);
                assert(next(a, d) == (1int, 2int));
            }
            if d.1 == 3 {
                lemma_next_at(a, (4, 3), 1);
                assert(next(a, d) == (2int, 2int));
            }
        }
        if d.0 == 5 {
            if d.1 == 0 {
                lemma_next_at(a, (5, 0), 1);
                assert(next(a, d) == (0int, 2int));
            }
            if d.1 == 1 {
                lemma_next_at(a, (5, 1), 3);
                assert(next(a, d) == (2int, 0int));
            }
            if d.1 == 2 {
                lemma_next_at(a, (5, 2), 3);
                assert(next(a, d) == (1int, 0int));
            }
            if d.1 == 3 {
                lemma_next_at(a, (5, 3), 1);
                assert(next(a, d) == (3int, 2int));
            }
        }
    }
    assert(fs.len() == 8);
    lemma_slot(a, 0, 0);
    assert(fs[0] == seq![0usize, 2, 4]);
    assert(first_dart(a, fs[0]) == (0int, 0int));
    assert(label_of_face(a, l, fs[0]) == -1i32);
    lemma_slot(a, 0, 1);
    assert(fs[1] == seq![0usize, 5, 2]);
    assert(first_dart(a, fs[1]) == (0int, 1int));
    assert(label_of_face(a, l, fs[1]) == -2i32);
    lemma_slot(a, 0, 2);
    assert(fs[2] == seq![0usize, 3, 5]);
    assert(first_dart(a, fs[2]) == (0int, 2int));
    assert(label_of_face(a, l, fs[2]) == -3i32);
    lemma_slot(a, 0, 3);
    assert(fs[3] == seq![0usize, 4, 3]);
    assert(first_dart(a, fs[3]) == (0int, 3int));
    assert(label_of_face(a, l, fs[3]) == -4i32);
    lemma_slot(a, 1, 0);
    assert(fs[4] == seq![1usize, 2, 5]);
    assert(first_dart(a, fs[4]) == (1int, 0int));
    assert(label_of_face(a, l, fs[4]) == -5i32);
    lemma_slot(a, 1, 1);
    assert(fs[5] == seq![1usize, 4, 2]);
    assert(first_dart(a, fs[5]) == (1int, 1int));
    assert(label_of_face(a, l, fs[5]) == -6i32);
    lemma_slot(a, 1, 2);
    assert(fs[6] == seq![1usize, 3, 4]);
    assert(first_dart(a, fs[6]) == (1int, 2int));
    assert(label_of_face(a, l, fs[6]) == -7i32);
    lemma_slot(a, 1, 3);
    assert(fs[7] == seq![1usize, 5, 3]);
    assert(first_dart(a, fs[7]) == (1int, 3int));
    assert(label_of_face(a, l, fs[7]) == -8i32);
    assert(face_labels(a, l) =~= octahedron_face_labels());
}

/// The rings of the octahedron, ready to be held.
pub(crate) fn octahedron_ring_table() -> (rings: Vec<Vec<usize>>)
    ensures
        rows(rings@) == octahedron_rings(),
{
    let mut rings: Vec<Vec<usize>> = Vec::new();
    rings.push(ring4(2, 5, 3, 4));
    rings.push(ring4(2, 4, 3, 5));
    rings.push(ring4(0, 4, 1, 5));
    rings.push(ring4(0, 5, 1, 4));
    rings.push(ring4(0, 3, 1, 2));
    rings.push(ring4(0, 2, 1, 3));
    assert(rows(rings@) =~= octahedron_rings());
    rings
}

/// The labels of the octahedron, ready to be held.
pub(crate) fn octahedron_label_table() -> (labels: Vec<Vec<i32>>)
    ensures
        rows(labels@) == octahedron_labels(),
{
    let mut labels: Vec<Vec<i32>> = Vec::new();
    labels.push(row4(-1, -2, -3, -4));
    labels.push(row4(-5, -6, -7, -8));
    labels.push(row4(-2, -1, -6, -5));
    labels.push(row4(-4, -3, -8, -7));
    labels.push(row4(-1, -4, -7, -6));
    labels.push(row4(-3, -2, -5, -8));
    assert(rows(labels@) =~= octahedron_labels());
    labels
}

/// The labels of the darts of the tetrahedron: every face has a label below zero of its own.
pub open spec fn tetrahedron_labels() -> Seq<Seq<i32>> {
    seq![
        seq![-4i32, -3i32, -2i32],
        seq![-3i32, -4i32, -1i32],
        seq![-4i32, -2i32, -1i32],
        seq![-2i32, -3i32, -1i32],
    ]
}

/// The labels of the faces of the tetrahedron, in the order of its faces.
pub open spec fn tetrahedron_face_labels() -> Seq<i32> {
    seq![-4i32, -3i32, -2i32, -1i32]
}

/// The labels of the tetrahedron fit its graph, and give its faces the labels listed.
pub proof fn lemma_tetrahedron_labels_fit()
    ensures
        labels_fit(tetrahedron_rings(), tetrahedron_labels()),
        face_labels(tetrahedron_rings(), tetrahedron_labels()) == tetrahedron_face_labels(),
{
    let a = tetrahedron_rings();
    let l = tetrahedron_labels();
    let fs = tetrahedron_faces();
    lemma_tetrahedron_rings_valid();
    lemma_tetrahedron_is_polyhedral();
    assert(l.len() == 4);
    assert(l[0] == seq![-4i32, -3i32, -2i32]);
    assert(l[1] == seq![-3i32, -4i32, -1i32]);
    assert(l[2] == seq![-4i32, -2i32, -1i32]);
    assert(l[3] == seq![-2i32, -3i32, -1i32]);
    assert(labels_shaped(a, l));
    assert forall|d: (int, int)| #[trigger] is_dart(a, d) implies l[d.0][d.1] == l[next(a, d).0][next(a, d).1] by {
        if d.0 == 0 {
            if d.1 == 0 {
                lemma_next_at(a, (0, 0), 0);
                assert(next(a, d) == (1int, 1int));
            }
            if d.1 == 1 {
                lemma_next_at(a, (0, 1), 0);
                assert(next(a, d) == (3int, 1int));
            }
            if d.1 == 2 {
                lemma_next_at(a, (0, 2), 0);
                assert(next(a, d) == (2int, 1int));
            }
        }
        if d.0 == 1 {
            if d.1 == 0 {
                lemma_next_at(a, (1, 0), 0);
                assert(next(a, d) == (0int, 1int));
            }
            if d.1 == 1 {
                lemma_next_at(a, (1, 1), 2);
                assert(next(a, d) == (2int, 0int));
            }
            if d.1 == 2 {
                lemma_next_at(a, (1, 2), 1);
                assert(next(a, d) == (3int, 2int));
            }
        }
        if d.0 == 2 {
            if d.1 == 0 {
                lemma_next_at(a, (2, 0), 2);
                assert(next(a, d) == (0int, 0int));
            }
            if d.1 == 1 {
                lemma_next_at(a, (2, 1), 2);
                assert(next(a, d) == (3int, 0int));
            }
            if d.1 == 2 {
                lemma_next_at(a, (2, 2), 1);
                assert(next(a, d) == (1int, 2int));
            }
        }
        if d.0 == 3 {
            if d.1 == 0 {
                lemma_next_at(a, (3, 0), 1);
                assert(next(a, d) == (0int, 2int));
            }
            if d.1 == 1 {
                lemma_next_at(a, (3, 1), 2);
                assert(next(a, d) == (1int, 0int));
            }
            if d.1 == 2 {
                lemma_next_at(a, (3, 2), 1);
                assert(next(a, d) == (2int, 2int));
            }
        }
    }
    assert(fs.len() == 4);
    lemma_slot(a, 0, 0);
    assert(fs[0] == seq![0usize, 1, 2]);
    assert(first_dart(a, fs[0]) == (0int, 0int));
    assert(label_of_face(a, l, fs[0]) == -4i32);
    lemma_slot(a, 0, 1);
    assert(fs[1] == seq![0usize, 3, 1]);
    assert(first_dart(a, fs[1]) == (0int, 1int));
    assert(label_of_face(a, l, fs[1]) == -3i32);
    lemma_slot(a, 0, 2);
    assert(fs[2] == seq![0usize, 2, 3]);
    assert(first_dart(a, fs[2]) == (0int, 2int));
    assert(label_of_face(a, l, fs[2]) == -2i32);
    lemma_slot(a, 1, 2);
    assert(fs[3] == seq![1usize, 3, 2]);
    assert(first_dart(a, fs[3]) == (1int, 2int));
    assert(label_of_face(a, l, fs[3]) == -1i32);
    assert(face_labels(a, l) =~= tetrahedron_face_labels());
}

/// The rings of the tetrahedron, ready to be held.
pub(crate) fn tetrahedron_ring_table() -> (rings: Vec<Vec<usize>>)
    ensures
        rows(rings@) == tetrahedron_rings(),
{
    let mut rings: Vec<Vec<usize>> = Vec::new();
    rings.push(ring3(1, 3, 2));
    rings.push(ring3(0, 2, 3));
    rings.push(ring3(0, 3, 1));
    rings.push(ring3(0, 1, 2));
    assert(rows(rings@) =~= tetrahedron_rings());
    rings
}

/// The labels of the tetrahedron, ready to be held.
pub(crate) fn tetrahedron_label_table() -> (labels: Vec<Vec<i32>>)
    ensures
        rows(labels@) == tetrahedron_labels(),
{
    let mut labels: Vec<Vec<i32>> = Vec::new();
    labels.push(row3(-4, -3, -2));
    labels.push(row3(-3, -4, -1));
    labels.push(row3(-4, -2, -1));
    labels.push(row3(-2, -3, -1));
    assert(rows(labels@) =~= tetrahedron_labels());
    labels
}

/// A row of three labels.
fn row3(x: i32, y: i32, z: i32) -> (row: Vec<i32>)
    ensures
        row@ == seq![x, y, z],
{
    let mut row: Vec<i32> = Vec::new();
    row.push(x);
    row.push(y);
    row.push(z);
    assert(row@ =~= seq![x, y, z]);
    row
}

/// A row of four labels.
fn row4(x: i32, y: i32, z: i32, w: i32) -> (row: Vec<i32>)
    ensures
        row@ == seq![x, y, z, w],
{
    let mut row: Vec<i32> = Vec::new();
    row.push(x);
    row.push(y);
    row.push(z);
    row.push(w);
    assert(row@ =~= seq![x, y, z, w]);
    row
}

/// A ring of three neighbours.
fn ring3(x: usize, y: usize, z: usize) -> (ring: Vec<usize>)
    ensures
        ring@ == seq![x, y, z],
{
    let mut ring: Vec<usize> = Vec::new();
    ring.push(x);
    ring.push(y);
    ring.push(z);
    assert(ring@ =~= seq![x, y, z]);
    ring
}

/// A ring of four neighbours.
fn ring4(x: usize, y: usize, z: usize, w: usize) -> (ring: Vec<usize>)
    ensures
        ring@ == seq![x, y, z, w],
{
    let mut ring: Vec<usize> = Vec::new();
    ring.push(x);
    ring.push(y);
    ring.push(z);
    ring.push(w);
    assert(ring@ =~= seq![x, y, z, w]);
    ring
}

} // verus!
