//! What a cutting plane leaves of a graph.
//!
//! The plane itself is not seen here. What is seen is the side of the plane
//! on which each vertex lies. Vertices beyond the plane go; an edge from an
//! inner vertex to a vertex beyond the plane is cut and gets a new vertex;
//! a vertex on the plane stays and stands in the cut itself. The new
//! vertices and the vertices on the plane are strung together, face by
//! face, into the one new face that the plane leaves.
use vstd::prelude::*;
use crate::model::{after, before, degree_sum, head, next, prev, slot};

verus! {

/// Where a vertex lies with respect to a cutting plane.
#[derive(Clone, Copy, Debug)]
pub enum Side {
    /// On the side that is kept, off the plane.
    Inside,
    /// On the plane, within the tolerance of whoever measured.
    OnPlane,
    /// On the side that is cut away.
    Outside,
}

/// The vertex stays.
pub open spec fn kept(o: Seq<Side>, v: int) -> bool {
    !(o[v] is Outside)
}

/// How many of the vertices below `v` stay: the new number of `v`, if it stays.
pub open spec fn kept_before(o: Seq<Side>, v: int) -> int
    decreases v,
{
    if v <= 0 {
        0
    } else {
        kept_before(o, v - 1) + if kept(o, v - 1) {
            1int
        } else {
            0int
        }
    }
}

/// The dart is cut: it leads from an inner vertex to one beyond the plane.
pub open spec fn is_cut(a: Seq<Seq<usize>>, o: Seq<Side>, d: (int, int)) -> bool {
    o[d.0] is Inside && o[head(a, d)] is Outside
}

/// How many of the darts of `v` in places below `k` are cut.
pub open spec fn cuts_in_ring(a: Seq<Seq<usize>>, o: Seq<Side>, v: int, k: int) -> int
    decreases k,
{
    if k <= 0 {
        0
    } else {
        cuts_in_ring(a, o, v, k - 1) + if is_cut(a, o, (v, k - 1)) {
            1int
        } else {
            0int
        }
    }
}

/// How many of the darts of the vertices below `v` are cut.
pub open spec fn cuts_before(a: Seq<Seq<usize>>, o: Seq<Side>, v: int) -> int
    decreases v,
{
    if v <= 0 {
        0
    } else {
        cuts_before(a, o, v - 1) + cuts_in_ring(a, o, v - 1, a[v - 1].len() as int)
    }
}

/// The new number of the vertex that a cut dart gets: the new vertices
/// follow the kept ones, in the order of their darts.
pub open spec fn cut_index(a: Seq<Seq<usize>>, o: Seq<Side>, d: (int, int)) -> int {
    kept_before(o, a.len() as int) + cuts_before(a, o, d.0) + cuts_in_ring(a, o, d.0, d.1)
}

/// The dart back along the same edge.
pub open spec fn reverse(a: Seq<Seq<usize>>, d: (int, int)) -> (int, int) {
    (head(a, d), slot(a, head(a, d), d.0))
}

/// The first dart, from `d` on along its face, that points at a kept
/// vertex; the walk gives up after `fuel` steps.
pub open spec fn enter(a: Seq<Seq<usize>>, o: Seq<Side>, d: (int, int), fuel: nat) -> (int, int)
    decreases fuel,
{
    if kept(o, head(a, d)) || fuel == 0 {
        d
    } else {
        enter(a, o, next(a, d), (fuel - 1) as nat)
    }
}

/// The first dart, from `d` back along its face, that leaves a kept
/// vertex; the walk gives up after `fuel` steps.
pub open spec fn leave(a: Seq<Seq<usize>>, o: Seq<Side>, d: (int, int), fuel: nat) -> (int, int)
    decreases fuel,
{
    if kept(o, d.0) || fuel == 0 {
        d
    } else {
        leave(a, o, prev(a, d), (fuel - 1) as nat)
    }
}

/// A vertex of the cut, named by where it comes from: `(y, -1)` is the
/// vertex `y` itself, which lies on the plane; `(y, k)` is the new vertex
/// on the cut dart `(y, k)`.
pub open spec fn gate_in(a: Seq<Seq<usize>>, o: Seq<Side>, e: (int, int)) -> (int, int) {
    let y = head(a, e);
    if o[y] is Inside {
        reverse(a, e)
    } else {
        (y, -1)
    }
}

/// The vertex of the cut at the tail of a dart that leaves the kept part.
pub open spec fn gate_out(o: Seq<Side>, e: (int, int)) -> (int, int) {
    if o[e.0] is Inside {
        e
    } else {
        (e.0, -1)
    }
}

/// The new number of a vertex of the cut.
pub open spec fn gate_index(a: Seq<Seq<usize>>, o: Seq<Side>, g: (int, int)) -> int {
    if g.1 < 0 {
        kept_before(o, g.0)
    } else {
        cut_index(a, o, g)
    }
}

/// The vertex of the cut that the face of the dart `d` reaches first,
/// walking on from `d`, which points beyond the plane.
pub open spec fn gate_ahead(a: Seq<Seq<usize>>, o: Seq<Side>, d: (int, int)) -> (int, int) {
    gate_in(a, o, enter(a, o, d, degree_sum(a, a.len() as int) as nat))
}

/// The vertex of the cut that the face on the other side of the edge of
/// `d` reaches first, walking back from the reverse of `d`.
pub open spec fn gate_behind(a: Seq<Seq<usize>>, o: Seq<Side>, d: (int, int)) -> (int, int) {
    gate_out(o, leave(a, o, reverse(a, d), degree_sum(a, a.len() as int) as nat))
}

/// The face of `d`, which leaves a vertex on the plane for one beyond it,
/// keeps a corner at that vertex: the cut reaches another vertex than the
/// one `d` leaves, and another than the neighbour before `d` in the ring.
pub open spec fn corner_ahead(a: Seq<Seq<usize>>, o: Seq<Side>, d: (int, int)) -> bool {
    let g = gate_ahead(a, o, d);
    let p = a[d.0][before(d.1, a[d.0].len() as int)] as int;
    g != (d.0, -1int) && g != (p, -1int)
}

/// The same for the face on the other side of the edge of `d` and the
/// neighbour after `d` in the ring.
pub open spec fn corner_behind(a: Seq<Seq<usize>>, o: Seq<Side>, d: (int, int)) -> bool {
    let g = gate_behind(a, o, d);
    let q = a[d.0][after(d.1, a[d.0].len() as int)] as int;
    g != (d.0, -1int) && g != (q, -1int)
}

/// What the place `d.1` in the ring of the kept vertex `d.0` turns into.
/// A kept neighbour stays under its new number. A neighbour beyond the
/// plane gives way to the new vertex on the edge, where the ring is that
/// of an inner vertex. In the ring of a vertex on the plane it gives way to
/// the vertices of the cut that the two faces at the edge lead to, as far
/// as those faces keep a corner there.
pub open spec fn piece(a: Seq<Seq<usize>>, o: Seq<Side>, d: (int, int)) -> Seq<usize> {
    let w = head(a, d);
    if kept(o, w) {
        seq![kept_before(o, w) as usize]
    } else if o[d.0] is Inside {
        seq![cut_index(a, o, d) as usize]
    } else {
        (if corner_ahead(a, o, d) {
            seq![gate_index(a, o, gate_ahead(a, o, d)) as usize]
        } else {
            Seq::<usize>::empty()
        }) + (if corner_behind(a, o, d) {
            seq![gate_index(a, o, gate_behind(a, o, d)) as usize]
        } else {
            Seq::<usize>::empty()
        })
    }
}

/// The new ring of the kept vertex `v`, as far as its places below `k` give it.
pub open spec fn kept_ring(a: Seq<Seq<usize>>, o: Seq<Side>, v: int, k: int) -> Seq<usize>
    decreases k,
{
    if k <= 0 {
        Seq::empty()
    } else {
        kept_ring(a, o, v, k - 1) + piece(a, o, (v, k - 1))
    }
}

/// The ring of the new vertex on the cut dart `d`: the inner end of the
/// edge, then the vertex of the cut ahead on the face of `d`, then the one
/// on the face across the edge.
pub open spec fn cut_ring(a: Seq<Seq<usize>>, o: Seq<Side>, d: (int, int)) -> Seq<usize> {
    seq![
        kept_before(o, d.0) as usize,
        gate_index(a, o, gate_ahead(a, o, d)) as usize,
        gate_index(a, o, gate_behind(a, o, d)) as usize,
    ]
}

/// The new rings of the kept vertices below `v`.
pub open spec fn kept_rings(a: Seq<Seq<usize>>, o: Seq<Side>, v: int) -> Seq<Seq<usize>>
    decreases v,
{
    if v <= 0 {
        Seq::empty()
    } else if kept(o, v - 1) {
        kept_rings(a, o, v - 1).push(kept_ring(a, o, v - 1, a[v - 1].len() as int))
    } else {
        kept_rings(a, o, v - 1)
    }
}

/// The rings of the new vertices on the cut darts of `v` in places below `k`.
pub open spec fn cut_rings_in_ring(a: Seq<Seq<usize>>, o: Seq<Side>, v: int, k: int) -> Seq<Seq<usize>>
    decreases k,
{
    if k <= 0 {
        Seq::empty()
    } else if is_cut(a, o, (v, k - 1)) {
        cut_rings_in_ring(a, o, v, k - 1).push(cut_ring(a, o, (v, k - 1)))
    } else {
        cut_rings_in_ring(a, o, v, k - 1)
    }
}

/// The rings of the new vertices on the cut darts of the vertices below `v`.
pub open spec fn cut_rings(a: Seq<Seq<usize>>, o: Seq<Side>, v: int) -> Seq<Seq<usize>>
    decreases v,
{
    if v <= 0 {
        Seq::empty()
    } else {
        cut_rings(a, o, v - 1) + cut_rings_in_ring(a, o, v - 1, a[v - 1].len() as int)
    }
}

/// The rings that the cut leaves: those of the kept vertices, then those of
/// the new vertices.
pub open spec fn clipped_rings(a: Seq<Seq<usize>>, o: Seq<Side>) -> Seq<Seq<usize>> {
    kept_rings(a, o, a.len() as int) + cut_rings(a, o, a.len() as int)
}

/// Where the vertices that the cut leaves come from. A kept vertex `v`
/// gives `(v, v)`; the new vertex on a cut dart gives the two ends of the
/// edge, the inner one first.
pub open spec fn kept_origins(o: Seq<Side>, v: int) -> Seq<(usize, usize)>
    decreases v,
{
    if v <= 0 {
        Seq::empty()
    } else if kept(o, v - 1) {
        kept_origins(o, v - 1).push(((v - 1) as usize, (v - 1) as usize))
    } else {
        kept_origins(o, v - 1)
    }
}

/// The ends of the cut darts of `v` in places below `k`.
pub open spec fn cut_origins_in_ring(a: Seq<Seq<usize>>, o: Seq<Side>, v: int, k: int) -> Seq<(usize, usize)>
    decreases k,
{
    if k <= 0 {
        Seq::empty()
    } else if is_cut(a, o, (v, k - 1)) {
        cut_origins_in_ring(a, o, v, k - 1).push((v as usize, a[v][k - 1]))
    } else {
        cut_origins_in_ring(a, o, v, k - 1)
    }
}

/// The ends of the cut darts of the vertices below `v`.
pub open spec fn cut_origins(a: Seq<Seq<usize>>, o: Seq<Side>, v: int) -> Seq<(usize, usize)>
    decreases v,
{
    if v <= 0 {
        Seq::empty()
    } else {
        cut_origins(a, o, v - 1) + cut_origins_in_ring(a, o, v - 1, a[v - 1].len() as int)
    }
}

/// For every vertex that the cut leaves, in its new order, where it comes from.
pub open spec fn clipped_origins(a: Seq<Seq<usize>>, o: Seq<Side>) -> Seq<(usize, usize)> {
    kept_origins(o, a.len() as int) + cut_origins(a, o, a.len() as int)
}

/// The labels have the shape of the rings: a row for every ring, a label
/// for every place.
pub open spec fn labels_shaped(a: Seq<Seq<usize>>, l: Seq<Seq<i32>>) -> bool {
    &&& l.len() == a.len()
    &&& forall|v: int| 0 <= v < a.len() ==> (#[trigger] l[v]).len() == a[v].len()
}

/// The face of the dart `d`, whose two ends stay, does not: all that the
/// cut leaves of it is the edge of `d`. The dart then lies on the new face.
pub open spec fn face_gone(a: Seq<Seq<usize>>, o: Seq<Side>, d: (int, int)) -> bool {
    let e = next(a, d);
    o[e.0] is OnPlane && !kept(o, head(a, e)) && gate_ahead(a, o, e) == (d.0, -1int)
}

/// The labels of the darts that the place `d.1` in the ring of the kept
/// vertex `d.0` turns into: each dart keeps the label of the face it lay
/// on, and the darts of the new face get the label `id`.
pub open spec fn piece_labels(a: Seq<Seq<usize>>, l: Seq<Seq<i32>>, o: Seq<Side>, id: i32, d: (int, int)) -> Seq<i32> {
    let w = head(a, d);
    if kept(o, w) {
        seq![if face_gone(a, o, d) {
            id
        } else {
            l[d.0][d.1]
        }]
    } else if o[d.0] is Inside {
        seq![l[d.0][d.1]]
    } else {
        (if corner_ahead(a, o, d) {
            seq![l[d.0][d.1]]
        } else {
            Seq::<i32>::empty()
        }) + (if corner_behind(a, o, d) {
            seq![id]
        } else {
            Seq::<i32>::empty()
        })
    }
}

/// The labels along the new ring of the kept vertex `v`, as far as its
/// places below `k` give them.
pub open spec fn kept_labels(a: Seq<Seq<usize>>, l: Seq<Seq<i32>>, o: Seq<Side>, id: i32, v: int, k: int) -> Seq<i32>
    decreases k,
{
    if k <= 0 {
        Seq::empty()
    } else {
        kept_labels(a, l, o, id, v, k - 1) + piece_labels(a, l, o, id, (v, k - 1))
    }
}

/// The labels along the ring of the new vertex on the cut dart `d`: the
/// face across the edge, the face of `d`, and the new face.
pub open spec fn cut_labels(a: Seq<Seq<usize>>, l: Seq<Seq<i32>>, id: i32, d: (int, int)) -> Seq<i32> {
    let r = reverse(a, d);
    seq![l[r.0][r.1], l[d.0][d.1], id]
}

/// The label rows of the kept vertices below `v`.
pub open spec fn kept_label_rows(a: Seq<Seq<usize>>, l: Seq<Seq<i32>>, o: Seq<Side>, id: i32, v: int) -> Seq<Seq<i32>>
    decreases v,
{
    if v <= 0 {
        Seq::empty()
    } else if kept(o, v - 1) {
        kept_label_rows(a, l, o, id, v - 1).push(kept_labels(a, l, o, id, v - 1, a[v - 1].len() as int))
    } else {
        kept_label_rows(a, l, o, id, v - 1)
    }
}

/// The label rows of the new vertices on the cut darts of `v` in places below `k`.
pub open spec fn cut_label_rows_in_ring(a: Seq<Seq<usize>>, l: Seq<Seq<i32>>, o: Seq<Side>, id: i32, v: int, k: int) -> Seq<Seq<i32>>
    decreases k,
{
    if k <= 0 {
        Seq::empty()
    } else if is_cut(a, o, (v, k - 1)) {
        cut_label_rows_in_ring(a, l, o, id, v, k - 1).push(cut_labels(a, l, id, (v, k - 1)))
    } else {
        cut_label_rows_in_ring(a, l, o, id, v, k - 1)
    }
}

/// The label rows of the new vertices on the cut darts of the vertices below `v`.
pub open spec fn cut_label_rows(a: Seq<Seq<usize>>, l: Seq<Seq<i32>>, o: Seq<Side>, id: i32, v: int) -> Seq<Seq<i32>>
    decreases v,
{
    if v <= 0 {
        Seq::empty()
    } else {
        cut_label_rows(a, l, o, id, v - 1) + cut_label_rows_in_ring(a, l, o, id, v - 1, a[v - 1].len() as int)
    }
}

/// The labels of the darts that the cut leaves, row for row with the rings.
pub open spec fn clipped_labels(a: Seq<Seq<usize>>, l: Seq<Seq<i32>>, o: Seq<Side>, id: i32) -> Seq<Seq<i32>> {
    kept_label_rows(a, l, o, id, a.len() as int) + cut_label_rows(a, l, o, id, a.len() as int)
}

/// Some vertex lies beyond the plane.
pub open spec fn any_outside(o: Seq<Side>) -> bool {
    exists|v: int| 0 <= v < o.len() && #[trigger] o[v] is Outside
}

/// Some vertex lies off the plane on the kept side.
pub open spec fn any_inside(o: Seq<Side>) -> bool {
    exists|v: int| 0 <= v < o.len() && #[trigger] o[v] is Inside
}

/// The plane cuts the cell in two: there are vertices off the plane on
/// both of its sides.
pub open spec fn splits(o: Seq<Side>) -> bool {
    any_outside(o) && any_inside(o)
}

/// The rings after the plane has been applied to a cell that it does not
/// do away with: the old rings where no vertex lies beyond the plane, the
/// rings that the cut leaves otherwise.
pub open spec fn rings_after(a: Seq<Seq<usize>>, o: Seq<Side>) -> Seq<Seq<usize>> {
    if any_outside(o) {
        clipped_rings(a, o)
    } else {
        a
    }
}

/// The labels after the plane has been applied, in the same way.
pub open spec fn labels_after(a: Seq<Seq<usize>>, l: Seq<Seq<i32>>, o: Seq<Side>, id: i32) -> Seq<Seq<i32>> {
    if any_outside(o) {
        clipped_labels(a, l, o, id)
    } else {
        l
    }
}

/// Where the vertices come from after the plane has been applied: each
/// from itself where no vertex lies beyond the plane.
pub open spec fn origins_after(a: Seq<Seq<usize>>, o: Seq<Side>) -> Seq<(usize, usize)> {
    if any_outside(o) {
        clipped_origins(a, o)
    } else {
        Seq::new(a.len(), |v: int| (v as usize, v as usize))
    }
}

} // verus!
