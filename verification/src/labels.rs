//! Labels of faces.
//!
//! A label is held for every dart: the label of the face that the dart lies
//! on. The darts of one face all hold the same label.
use vstd::prelude::*;
use crate::clip::labels_shaped;
use crate::faces::faces_in;
use crate::model::{face_listed, first_dart, is_dart, is_face_listing, next, orbit, rows};
use crate::rings::{is_rotation, next_in, slot_in};
use crate::unique::{faces_of, lemma_faces_of};

verus! {

/// The labels fit the graph: they have its shape, and a dart and the next
/// dart on its face hold the same label.
pub open spec fn labels_fit(a: Seq<Seq<usize>>, l: Seq<Seq<i32>>) -> bool {
    &&& labels_shaped(a, l)
    &&& forall|d: (int, int)| #[trigger]
        is_dart(a, d) ==> l[d.0][d.1] == l[next(a, d).0][next(a, d).1]
}

/// The label of a face: the one that its first dart holds.
pub open spec fn label_of_face(a: Seq<Seq<usize>>, l: Seq<Seq<i32>>, f: Seq<usize>) -> i32 {
    l[first_dart(a, f).0][first_dart(a, f).1]
}

/// The labels of the faces, in the order of the faces.
pub open spec fn face_labels(a: Seq<Seq<usize>>, l: Seq<Seq<i32>>) -> Seq<i32> {
    Seq::new(faces_of(a).len(), |j: int| label_of_face(a, l, faces_of(a)[j]))
}

/// Tells whether the labels fit the graph.
pub fn labels_do_fit(rings: &Vec<Vec<usize>>, labels: &Vec<Vec<i32>>) -> (ok: bool)
    requires
        is_rotation(rows(rings@)),
    ensures
        ok == labels_fit(rows(rings@), rows(labels@)),
{
    let ghost a = rows(rings@);
    let ghost l = rows(labels@);
    let n = rings.len();
    if labels.len() != n {
        return false;
    }
    let mut v: usize = 0;
    while v < n
        invariant
            a == rows(rings@),
            l == rows(labels@),
            n == rings.len(),
            labels.len() == n,
            v <= n,
            forall|x: int| 0 <= x < v ==> (#[trigger] l[x]).len() == a[x].len(),
        decreases n - v,
    {
        assert(rings[v as int]@ == a[v as int]);
        assert(labels[v as int]@ == l[v as int]);
        if labels[v].len() != rings[v].len() {
            return false;
        }
        v += 1;
    }
    assert(labels_shaped(a, l));
    let mut v: usize = 0;
    while v < n
        invariant
            a == rows(rings@),
            l == rows(labels@),
            is_rotation(a),
            labels_shaped(a, l),
            n == rings.len(),
            v <= n,
            forall|d: (int, int)| #[trigger]
                is_dart(a, d) && d.0 < v ==> l[d.0][d.1] == l[next(a, d).0][next(a, d).1],
        decreases n - v,
    {
        let m = rings[v].len();
        assert(rings[v as int]@ == a[v as int]);
        let mut k: usize = 0;
        while k < m
            invariant
                a == rows(rings@),
                l == rows(labels@),
                is_rotation(a),
                labels_shaped(a, l),
                n == rings.len(),
                v < n,
                m == a[v as int].len(),
                k <= m,
                forall|d: (int, int)| #[trigger]
                    is_dart(a, d) && (d.0 < v || (d.0 == v && d.1 < k)) ==> l[d.0][d.1] == l[next(
                        a,
                        d,
                    ).0][next(a, d).1],
            decreases m - k,
        {
            let e = next_in(rings, v, k);
            assert(labels[v as int]@ == l[v as int]);
            assert(labels[e.0 as int]@ == l[e.0 as int]);
            assert(l[v as int].len() == a[v as int].len());
            assert(l[e.0 as int].len() == a[e.0 as int].len());
            if labels[v][k] != labels[e.0][e.1] {
                assert(is_dart(a, (v as int, k as int)));
                return false;
            }
            k += 1;
        }
        v += 1;
    }
    true
}

/// The labels of the faces, in the order in which the faces are listed.
pub fn labels_of_faces(rings: &Vec<Vec<usize>>, labels: &Vec<Vec<i32>>) -> (out: Vec<i32>)
    requires
        is_rotation(rows(rings@)),
        labels_shaped(rows(rings@), rows(labels@)),
    ensures
        out@ == face_labels(rows(rings@), rows(labels@)),
        out.len() == faces_of(rows(rings@)).len(),
{
    let ghost a = rows(rings@);
    let ghost l = rows(labels@);
    let faces = faces_in(rings);
    let ghost fs = rows(faces@);
    proof {
        lemma_faces_of(a, fs);
    }
    let mut out: Vec<i32> = Vec::new();
    let mut j: usize = 0;
    while j < faces.len()
        invariant
            a == rows(rings@),
            l == rows(labels@),
            fs == rows(faces@),
            fs == faces_of(a),
            is_rotation(a),
            labels_shaped(a, l),
            is_face_listing(a, fs),
            j <= faces.len(),
            out.len() == j,
            forall|i: int| 0 <= i < j ==> out[i] == label_of_face(a, l, fs[i]),
        decreases faces.len() - j,
    {
        let face = &faces[j];
        assert(face@ == fs[j as int]);
        assert(face_listed(a, fs, j as int));
        let ghost s = first_dart(a, face@);
        proof {
            assert(orbit(a, s, 0) == s);
            assert(orbit(a, s, 1) == next(a, s));
            assert(face@[0] == orbit(a, s, 0).0);
            assert(face@[1] == orbit(a, s, 1).0);
            assert(a[s.0][s.1] == face@[1]);
        }
        let v = face[0];
        let w = face[1];
        assert(rings[v as int]@ == a[v as int]);
        let k = slot_in(rings, v, w);
        assert(labels[v as int]@ == l[v as int]);
        assert(l[v as int].len() == a[v as int].len());
        out.push(labels[v][k]);
        j += 1;
    }
    assert(out@ =~= face_labels(a, l));
    out
}

} // verus!
