//! The mathematics of a cell's graph.
//!
//! The graph of a convex polyhedron is written as one ring per vertex: the
//! neighbours of the vertex in the order in which they stand around it. The
//! rings alone fix the faces. An edge seen from one of its ends is a dart;
//! every dart has a next dart on the same face, and the faces are the
//! cycles of that step.
use vstd::prelude::*;

verus! {

/// The rows of a table, each as a sequence.
pub open spec fn rows<T>(v: Seq<Vec<T>>) -> Seq<Seq<T>> {
    Seq::new(v.len(), |i: int| v[i]@)
}

/// The dart `(v, k)` exists: `v` is a vertex and `k` a place in its ring.
pub open spec fn is_dart(a: Seq<Seq<usize>>, d: (int, int)) -> bool {
    0 <= d.0 < a.len() && 0 <= d.1 < a[d.0].len()
}

/// The vertex that the dart points at.
pub open spec fn head(a: Seq<Seq<usize>>, d: (int, int)) -> int {
    a[d.0][d.1] as int
}

/// The rings describe a graph: the vertices can be counted, every entry is a vertex other than the owner
/// of the ring, no ring holds a vertex twice, an edge is listed at both of
/// its ends, and every vertex has at least three neighbours.
pub open spec fn rings_valid(a: Seq<Seq<usize>>) -> bool {
    &&& a.len() <= usize::MAX
    &&& forall|v: int, k: int|
        #![trigger a[v][k]]
        is_dart(a, (v, k)) ==> a[v][k] < a.len() && a[v][k] != v && a[a[v][k] as int].contains(
            v as usize,
        )
    &&& forall|v: int, j: int, k: int|
        #![trigger a[v][j], a[v][k]]
        is_dart(a, (v, j)) && is_dart(a, (v, k)) && j != k ==> a[v][j] != a[v][k]
    &&& forall|v: int| 0 <= v < a.len() ==> (#[trigger] a[v]).len() >= 3
}

/// The sum of the lengths of the first `n` rings.
pub open spec fn degree_sum(a: Seq<Seq<usize>>, n: int) -> int
    decreases n,
{
    if n <= 0 {
        0
    } else {
        degree_sum(a, n - 1) + a[n - 1].len()
    }
}

/// The place of `v` in the ring of `w`.
pub open spec fn slot(a: Seq<Seq<usize>>, w: int, v: int) -> int {
    a[w].index_of(v as usize)
}

/// The place after `j` in a ring of `m` places.
pub open spec fn after(j: int, m: int) -> int {
    if j + 1 < m {
        j + 1
    } else {
        0
    }
}

/// The place before `j` in a ring of `m` places.
pub open spec fn before(j: int, m: int) -> int {
    if j == 0 {
        m - 1
    } else {
        j - 1
    }
}

/// The dart that follows `d` on its face: it leaves the head of `d` by the
/// place after the one that leads back.
pub open spec fn next(a: Seq<Seq<usize>>, d: (int, int)) -> (int, int) {
    let w = head(a, d);
    (w, after(slot(a, w, d.0), a[w].len() as int))
}

/// The dart that `d` follows on its face.
pub open spec fn prev(a: Seq<Seq<usize>>, d: (int, int)) -> (int, int) {
    let v = a[d.0][before(d.1, a[d.0].len() as int)] as int;
    (v, slot(a, v, d.0))
}

/// The dart reached from `d` by `i` steps along its face.
pub open spec fn orbit(a: Seq<Seq<usize>>, d: (int, int), i: nat) -> (int, int)
    decreases i,
{
    if i == 0 {
        d
    } else {
        next(a, orbit(a, d, (i - 1) as nat))
    }
}

/// Darts in the order of their vertices, and of their places within a ring.
pub open spec fn dart_lt(d: (int, int), e: (int, int)) -> bool {
    d.0 < e.0 || (d.0 == e.0 && d.1 < e.1)
}

/// The dart `d` is one of the first `len` darts on the face that starts at `s`.
pub open spec fn on_face(a: Seq<Seq<usize>>, s: (int, int), len: nat, d: (int, int)) -> bool {
    exists|i: nat| i < len && #[trigger] orbit(a, s, i) == d
}

/// The vertex list `f` is the face through the dart `s`, read from `s`: it
/// holds the tails of `s` and of the darts that follow it up to the return
/// to `s`, and `s` is the least dart among them.
pub open spec fn is_face_from(a: Seq<Seq<usize>>, s: (int, int), f: Seq<usize>) -> bool {
    &&& f.len() >= 3
    &&& is_dart(a, s)
    &&& forall|i: nat| i < f.len() ==> f[i as int] == (#[trigger] orbit(a, s, i)).0
    &&& orbit(a, s, f.len()) == s
    &&& forall|i: nat| 0 < i < f.len() ==> dart_lt(s, #[trigger] orbit(a, s, i))
}

/// The dart from the first vertex of a face to its second.
pub open spec fn first_dart(a: Seq<Seq<usize>>, f: Seq<usize>) -> (int, int) {
    (f[0] as int, slot(a, f[0] as int, f[1] as int))
}

/// Entry `j` of the listing is the face through its own first dart.
pub open spec fn face_listed(a: Seq<Seq<usize>>, fs: Seq<Seq<usize>>, j: int) -> bool {
    is_face_from(a, first_dart(a, fs[j]), fs[j])
}

/// Face `j` starts at an earlier dart than face `j2`.
pub open spec fn in_order(a: Seq<Seq<usize>>, fs: Seq<Seq<usize>>, j: int, j2: int) -> bool {
    dart_lt(first_dart(a, fs[j]), first_dart(a, fs[j2]))
}

/// The dart lies on one of the listed faces.
pub open spec fn on_a_face(a: Seq<Seq<usize>>, fs: Seq<Seq<usize>>, d: (int, int)) -> bool {
    exists|j: int| 0 <= j < fs.len() && #[trigger] on_face(a, first_dart(a, fs[j]), fs[j].len(), d)
}

/// `fs` lists the faces of the graph: each entry is the face through its
/// first dart and starts at the least dart of that face, the faces stand in
/// the order of their first darts, and every dart lies on one of them.
pub open spec fn is_face_listing(a: Seq<Seq<usize>>, fs: Seq<Seq<usize>>) -> bool {
    &&& forall|j: int| 0 <= j < fs.len() ==> #[trigger] face_listed(a, fs, j)
    &&& forall|j: int, j2: int| 0 <= j < j2 < fs.len() ==> #[trigger] in_order(a, fs, j, j2)
    &&& forall|d: (int, int)| #[trigger] is_dart(a, d) ==> on_a_face(a, fs, d)
}

/// In a valid graph the place of a neighbour is the one place that holds it.
pub proof fn lemma_slot(a: Seq<Seq<usize>>, w: int, j: int)
    requires
        rings_valid(a),
        is_dart(a, (w, j)),
    ensures
        slot(a, w, a[w][j] as int) == j,
{
    let v = a[w][j];
    assert(a[w].contains(v));
    let s = a[w].index_of(v);
    assert(0 <= s < a[w].len() && a[w][s] == v);
    if s != j {
        assert(a[w][s] != a[w][j]);
    }
}

/// The reverse of a dart is a dart.
pub proof fn lemma_slot_back(a: Seq<Seq<usize>>, d: (int, int))
    requires
        rings_valid(a),
        is_dart(a, d),
    ensures
        is_dart(a, (head(a, d), slot(a, head(a, d), d.0))),
        a[head(a, d)][slot(a, head(a, d), d.0)] == d.0,
{
    let w = a[d.0][d.1];
    assert(a[w as int].contains(d.0 as usize));
}

/// The step along a face leads from darts to darts.
pub proof fn lemma_next_is_dart(a: Seq<Seq<usize>>, d: (int, int))
    requires
        rings_valid(a),
        is_dart(a, d),
    ensures
        is_dart(a, next(a, d)),
        next(a, d).0 == head(a, d),
        next(a, d).0 != d.0,
{
    lemma_slot_back(a, d);
}

/// The step back undoes the step forward.
pub proof fn lemma_prev_next(a: Seq<Seq<usize>>, d: (int, int))
    requires
        rings_valid(a),
        is_dart(a, d),
    ensures
        prev(a, next(a, d)) == d,
{
    lemma_slot_back(a, d);
    lemma_slot(a, d.0, d.1);
}

/// The step back leads from darts to darts, and the step forward undoes it.
pub proof fn lemma_next_prev(a: Seq<Seq<usize>>, d: (int, int))
    requires
        rings_valid(a),
        is_dart(a, d),
    ensures
        is_dart(a, prev(a, d)),
        next(a, prev(a, d)) == d,
{
    let m = a[d.0].len() as int;
    let b = before(d.1, m);
    assert(is_dart(a, (d.0, b)));
    lemma_slot_back(a, (d.0, b));
    lemma_slot(a, d.0, b);
}

/// Two darts with the same next dart are the same dart.
pub proof fn lemma_next_injective(a: Seq<Seq<usize>>, d: (int, int), e: (int, int))
    requires
        rings_valid(a),
        is_dart(a, d),
        is_dart(a, e),
        next(a, d) == next(a, e),
    ensures
        d == e,
{
    lemma_prev_next(a, d);
    lemma_prev_next(a, e);
}

/// Every dart of an orbit is a dart.
pub proof fn lemma_orbit_is_dart(a: Seq<Seq<usize>>, d: (int, int), i: nat)
    requires
        rings_valid(a),
        is_dart(a, d),
    ensures
        is_dart(a, orbit(a, d, i)),
    decreases i,
{
    if i > 0 {
        lemma_orbit_is_dart(a, d, (i - 1) as nat);
        lemma_next_is_dart(a, orbit(a, d, (i - 1) as nat));
    }
}

/// A face has at least three darts: neither the first nor the second step
/// leads back to the start.
pub proof fn lemma_face_is_long(a: Seq<Seq<usize>>, s: (int, int))
    requires
        rings_valid(a),
        is_dart(a, s),
    ensures
        orbit(a, s, 1) != s,
        orbit(a, s, 2) != s,
{
    assert(orbit(a, s, 0) == s);
    assert(orbit(a, s, 1) == next(a, s));
    assert(orbit(a, s, 2) == next(a, orbit(a, s, 1)));
    lemma_next_is_dart(a, s);
    let d = next(a, s);
    lemma_next_is_dart(a, d);
    lemma_slot_back(a, s);
    let w = head(a, s);
    let j = slot(a, w, s.0);
    let j2 = after(j, a[w].len() as int);
    assert(a[w].len() >= 3);
    assert(j2 != j);
    assert(is_dart(a, (w, j)) && is_dart(a, (w, j2)));
    assert(a[w][j] != a[w][j2]);
}

/// Walking `i` steps and then `j` more is walking `i + j` steps.
pub proof fn lemma_orbit_add(a: Seq<Seq<usize>>, d: (int, int), i: nat, j: nat)
    ensures
        orbit(a, orbit(a, d, i), j) == orbit(a, d, i + j),
    decreases j,
{
    if j > 0 {
        lemma_orbit_add(a, d, i, (j - 1) as nat);
    }
}

} // verus!
