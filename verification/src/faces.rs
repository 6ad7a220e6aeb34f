//! Reading the faces off the rings.
use vstd::prelude::*;
use crate::model::{
    dart_lt, face_listed, first_dart, in_order, is_dart, is_face_from, is_face_listing,
    lemma_face_is_long, lemma_next_injective, lemma_orbit_is_dart, lemma_slot, next, on_a_face,
    on_face, orbit, rings_valid, rows,
};
use crate::rings::{is_rotation, next_in};

verus! {

/// How many places of a row are not marked.
spec fn row_unmarked(r: Seq<bool>) -> nat
    decreases r.len(),
{
    if r.len() == 0 {
        0
    } else {
        row_unmarked(r.drop_last()) + if r.last() {
            0nat
        } else {
            1nat
        }
    }
}

/// How many places of a table are not marked.
spec fn unmarked(m: Seq<Seq<bool>>) -> nat
    decreases m.len(),
{
    if m.len() == 0 {
        0
    } else {
        unmarked(m.drop_last()) + row_unmarked(m.last())
    }
}

proof fn lemma_mark_row(r: Seq<bool>, k: int)
    requires
        0 <= k < r.len(),
        !r[k],
    ensures
        row_unmarked(r.update(k, true)) + 1 == row_unmarked(r),
    decreases r.len(),
{
    if k == r.len() - 1 {
        assert(r.update(k, true).drop_last() =~= r.drop_last());
    } else {
        assert(r.update(k, true).drop_last() =~= r.drop_last().update(k, true));
        lemma_mark_row(r.drop_last(), k);
    }
}

proof fn lemma_mark(m: Seq<Seq<bool>>, v: int, k: int)
    requires
        0 <= v < m.len(),
        0 <= k < m[v].len(),
        !m[v][k],
    ensures
        unmarked(m.update(v, m[v].update(k, true))) + 1 == unmarked(m),
    decreases m.len(),
{
    let m2 = m.update(v, m[v].update(k, true));
    if v == m.len() - 1 {
        assert(m2.drop_last() =~= m.drop_last());
        lemma_mark_row(m[v], k);
    } else {
        assert(m2.drop_last() =~= m.drop_last().update(v, m[v].update(k, true)));
        lemma_mark(m.drop_last(), v, k);
    }
}

/// The dart lies on one of the faces that start at `starts`.
spec fn covered(a: Seq<Seq<usize>>, starts: Seq<(int, int)>, fs: Seq<Seq<usize>>, d: (int, int)) -> bool {
    exists|j: int| 0 <= j < starts.len() && #[trigger] on_face(a, starts[j], fs[j].len(), d)
}

/// The faces found so far are whole: each starts at a dart and returns to it.
spec fn closed_faces(a: Seq<Seq<usize>>, starts: Seq<(int, int)>, fs: Seq<Seq<usize>>) -> bool {
    forall|j: int|
        0 <= j < starts.len() ==> is_dart(a, #[trigger] starts[j]) && fs[j].len() > 0 && orbit(
            a,
            starts[j],
            fs[j].len(),
        ) == starts[j]
}

/// A dart that leads into a face found earlier lies on that face.
proof fn lemma_closed_under_prev(
    a: Seq<Seq<usize>>,
    starts: Seq<(int, int)>,
    fs: Seq<Seq<usize>>,
    c: (int, int),
)
    requires
        rings_valid(a),
        closed_faces(a, starts, fs),
        is_dart(a, c),
        covered(a, starts, fs, next(a, c)),
    ensures
        covered(a, starts, fs, c),
{
    let j = choose|j: int| 0 <= j < starts.len() && #[trigger] on_face(a, starts[j], fs[j].len(), next(a, c));
    let s = starts[j];
    let len = fs[j].len();
    let i = choose|i: nat| i < len && #[trigger] orbit(a, s, i) == next(a, c);
    let p: nat = if i == 0 { (len - 1) as nat } else { (i - 1) as nat };
    lemma_orbit_is_dart(a, s, p);
    assert(next(a, orbit(a, s, p)) == next(a, c)) by {
        if i == 0 {
            assert(orbit(a, s, len) == next(a, orbit(a, s, (len - 1) as nat)));
        } else {
            assert(orbit(a, s, i) == next(a, orbit(a, s, (i - 1) as nat)));
        }
    }
    lemma_next_injective(a, orbit(a, s, p), c);
    assert(on_face(a, s, len, c));
}

/// The faces of a graph, each as the list of its vertices in order.
///
/// A face starts at its least dart, and the faces stand in the order of
/// those darts: first by vertex, then by place in that vertex's ring.
pub fn faces_in(rings: &Vec<Vec<usize>>) -> (faces: Vec<Vec<usize>>)
    requires
        is_rotation(rows(rings@)),
    ensures
        is_face_listing(rows(rings@), rows(faces@)),
{
    let ghost a = rows(rings@);
    let n = rings.len();
    let mut visited: Vec<Vec<bool>> = Vec::new();
    let mut u: usize = 0;
    while u < n
        invariant
            a == rows(rings@),
            n == a.len(),
            u <= n,
            visited.len() == u,
            forall|x: int| 0 <= x < u ==> (#[trigger] visited[x]).len() == a[x].len(),
            forall|x: int, y: int| 0 <= x < u && 0 <= y < a[x].len() ==> !(#[trigger] visited[x][y]),
        decreases n - u,
    {
        let m = rings[u].len();
        assert(rings[u as int]@ == a[u as int]);
        visited.push(vec![false; m]);
        u += 1;
    }
    let mut faces: Vec<Vec<usize>> = Vec::new();
    let ghost mut starts: Seq<(int, int)> = Seq::empty();
    let mut v: usize = 0;
    while v < n
        invariant
            a == rows(rings@),
            is_rotation(a),
            n == a.len(),
            v <= n,
            visited.len() == n,
            forall|x: int| 0 <= x < n ==> (#[trigger] visited[x]).len() == a[x].len(),
            starts.len() == faces.len(),
            closed_faces(a, starts, rows(faces@)),
            forall|j: int|
                0 <= j < faces.len() ==> starts[j] == first_dart(a, (#[trigger] faces[j])@)
                    && is_face_from(a, starts[j], faces[j]@),
            forall|j: int, j2: int|
                0 <= j < j2 < starts.len() ==> dart_lt(#[trigger] starts[j], #[trigger] starts[j2]),
            forall|j: int| 0 <= j < starts.len() ==> dart_lt(#[trigger] starts[j], (v as int, 0)),
            forall|d: (int, int)|
                is_dart(a, d) ==> (#[trigger] visited[d.0][d.1] <==> covered(a, starts, rows(faces@), d)),
            forall|d: (int, int)|
                is_dart(a, d) && dart_lt(d, (v as int, 0)) ==> #[trigger] visited[d.0][d.1],
        decreases n - v,
    {
        let m = rings[v].len();
        assert(rings[v as int]@ == a[v as int]);
        let mut k: usize = 0;
        while k < m
            invariant
                a == rows(rings@),
                is_rotation(a),
                n == a.len(),
                v < n,
                m == a[v as int].len(),
                k <= m,
                visited.len() == n,
                forall|x: int| 0 <= x < n ==> (#[trigger] visited[x]).len() == a[x].len(),
                starts.len() == faces.len(),
                closed_faces(a, starts, rows(faces@)),
                forall|j: int|
                    0 <= j < faces.len() ==> starts[j] == first_dart(a, (#[trigger] faces[j])@)
                        && is_face_from(a, starts[j], faces[j]@),
                forall|j: int, j2: int|
                    0 <= j < j2 < starts.len() ==> dart_lt(
                        #[trigger] starts[j],
                        #[trigger] starts[j2],
                    ),
                forall|j: int|
                    0 <= j < starts.len() ==> dart_lt(#[trigger] starts[j], (v as int, k as int)),
                forall|d: (int, int)|
                    is_dart(a, d) ==> (#[trigger] visited[d.0][d.1] <==> covered(
                        a,
                        starts,
                        rows(faces@),
                        d,
                    )),
                forall|d: (int, int)|
                    is_dart(a, d) && dart_lt(d, (v as int, k as int)) ==> #[trigger] visited[d.0][d.1],
            decreases m - k,
        {
            if !visited[v][k] {
                let ghost s = (v as int, k as int);
                let ghost before = rows(visited@);
                let ghost fs = rows(faces@);
                let mut face: Vec<usize> = Vec::new();
                let mut cv = v;
                let mut ck = k;
                assert(orbit(a, s, 0) == s);
                loop
                    invariant_except_break
                        !visited[cv as int][ck as int],
                        (cv as int, ck as int) == orbit(a, s, face.len() as nat),
                        forall|d: (int, int)|
                            is_dart(a, d) ==> (#[trigger] visited[d.0][d.1] <==> (before[d.0][d.1]
                                || on_face(a, s, face.len() as nat, d))),
                    invariant
                        a == rows(rings@),
                        is_rotation(a),
                        n == a.len(),
                        s == (v as int, k as int),
                        is_dart(a, s),
                        is_dart(a, (cv as int, ck as int)),
                        fs == rows(faces@),
                        visited.len() == n,
                        forall|x: int| 0 <= x < n ==> (#[trigger] visited[x]).len() == a[x].len(),
                        before.len() == n,
                        forall|x: int| 0 <= x < n ==> (#[trigger] before[x]).len() == a[x].len(),
                        closed_faces(a, starts, fs),
                        starts.len() == fs.len(),
                        !before[s.0][s.1],
                        forall|d: (int, int)|
                            is_dart(a, d) ==> (#[trigger] before[d.0][d.1] <==> covered(a, starts, fs, d)),
                        forall|d: (int, int)|
                            is_dart(a, d) && dart_lt(d, s) ==> #[trigger] before[d.0][d.1],
                        forall|i: nat|
                            i < face.len() ==> face[i as int] == (#[trigger] orbit(a, s, i)).0,
                        forall|i: nat| 0 < i < face.len() ==> dart_lt(s, #[trigger] orbit(a, s, i)),
                    ensures
                        face.len() > 0,
                        orbit(a, s, face.len() as nat) == s,
                        forall|d: (int, int)|
                            is_dart(a, d) ==> (#[trigger] visited[d.0][d.1] <==> (before[d.0][d.1]
                                || on_face(a, s, face.len() as nat, d))),
                    decreases unmarked(rows(visited@)),
                {
                    let ghost t = face.len() as nat;
                    let ghost cur = (cv as int, ck as int);
                    let ghost marks = rows(visited@);
                    proof {
                        lemma_mark(marks, cv as int, ck as int);
                        if t > 0 {
                            assert(cur != s) by {
                                assert(orbit(a, s, 0) == s);
                                assert(on_face(a, s, t, s));
                            }
                            assert(!before[cur.0][cur.1]);
                            assert(!dart_lt(cur, s));
                        }
                    }
                    visited[cv][ck] = true;
                    face.push(cv);
                    proof {
                        assert(rows(visited@) =~= marks.update(cv as int, marks[cv as int].update(ck as int, true)));
                    }
                    let d = next_in(rings, cv, ck);
                    let ghost c = (d.0 as int, d.1 as int);
                    proof {
                        assert(orbit(a, s, t + 1) == next(a, orbit(a, s, t)));
                        assert forall|e: (int, int)| is_dart(a, e) implies (#[trigger] visited[e.0][e.1] <==> (
                        before[e.0][e.1] || on_face(a, s, t + 1, e))) by {
                            if e == cur {
                                assert(orbit(a, s, t) == e);
                            } else {
                                if on_face(a, s, t + 1, e) {
                                    let i = choose|i: nat| i < t + 1 && #[trigger] orbit(a, s, i) == e;
                                    assert(i < t);
                                    assert(on_face(a, s, t, e));
                                }
                                if on_face(a, s, t, e) {
                                    let i = choose|i: nat| i < t && #[trigger] orbit(a, s, i) == e;
                                    assert(i < t + 1 && orbit(a, s, i) == e);
                                }
                                assert(visited[e.0][e.1] == marks[e.0][e.1]);
                            }
                        }
                    }
                    if d.0 == v && d.1 == k {
                        break;
                    }
                    proof {
                        // the dart ahead has not been walked
                        if visited[c.0][c.1] {
                            if before[c.0][c.1] {
                                lemma_closed_under_prev(a, starts, fs, cur);
                                assert(false);
                            } else {
                                let i = choose|i: nat| i < t + 1 && #[trigger] orbit(a, s, i) == c;
                                assert(i != 0);
                                assert(orbit(a, s, i) == next(a, orbit(a, s, (i - 1) as nat)));
                                lemma_orbit_is_dart(a, s, (i - 1) as nat);
                                lemma_next_injective(a, orbit(a, s, (i - 1) as nat), cur);
                                assert(on_face(a, s, t, cur));
                                assert(false);
                            }
                        }
                        assert(!dart_lt(c, s));
                    }
                    cv = d.0;
                    ck = d.1;
                }
                proof {
                    lemma_face_is_long(a, s);
                    assert(face.len() >= 3);
                    lemma_slot(a, s.0, s.1);
                    assert(orbit(a, s, 1) == next(a, s));
                    assert(face[0] == orbit(a, s, 0).0);
                    assert(face[1] == orbit(a, s, 1).0);
                    assert(first_dart(a, face@) == s);
                    assert(is_face_from(a, s, face@));
                }
                let ghost old_starts = starts;
                let ghost flen = face.len() as nat;
                faces.push(face);
                proof {
                    starts = starts.push(s);
                    let fs2 = rows(faces@);
                    assert(fs2 =~= fs.push(faces[faces.len() - 1]@));
                    assert forall|j: int| 0 <= j < fs.len() implies fs2[j] == fs[j] by {}
                    assert forall|e: (int, int)| is_dart(a, e) implies (#[trigger] visited[e.0][e.1] <==> covered(
                        a,
                        starts,
                        fs2,
                        e,
                    )) by {
                        if covered(a, old_starts, fs, e) {
                            let j = choose|j: int| 0 <= j < old_starts.len() && #[trigger] on_face(a, old_starts[j], fs[j].len(), e);
                            assert(on_face(a, starts[j], fs2[j].len(), e));
                        }
                        if on_face(a, s, flen, e) {
                            assert(on_face(a, starts[starts.len() - 1], fs2[starts.len() - 1].len(), e));
                        }
                        if covered(a, starts, fs2, e) {
                            let j = choose|j: int| 0 <= j < starts.len() && #[trigger] on_face(a, starts[j], fs2[j].len(), e);
                            if j < old_starts.len() {
                                assert(on_face(a, old_starts[j], fs[j].len(), e));
                            }
                        }
                    }
                    assert(orbit(a, s, 0) == s);
                    assert(on_face(a, s, flen, s));
                }
            }
            k += 1;
        }
        v += 1;
    }
    proof {
        let fs = rows(faces@);
        assert forall|d: (int, int)| #[trigger] is_dart(a, d) implies on_a_face(a, fs, d) by {
            assert(dart_lt(d, (n as int, 0)));
            assert(visited[d.0][d.1]);
            let j = choose|j: int| 0 <= j < starts.len() && #[trigger] on_face(a, starts[j], fs[j].len(), d);
            assert(starts[j] == first_dart(a, faces[j]@));
            assert(on_face(a, first_dart(a, fs[j]), fs[j].len(), d));
        }
        assert forall|j: int| 0 <= j < fs.len() implies #[trigger] face_listed(a, fs, j) by {
            assert(fs[j] == faces[j]@);
        }
        assert forall|j: int, j2: int| 0 <= j < j2 < fs.len() implies #[trigger] in_order(a, fs, j, j2) by {
            assert(fs[j] == faces[j]@);
            assert(fs[j2] == faces[j2]@);
            assert(dart_lt(starts[j], starts[j2]));
        }
    }
    faces
}

} // verus!
