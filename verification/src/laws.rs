//! What holds of every cut.
use vstd::prelude::*;
use crate::clip::{
    any_outside, clipped_labels, clipped_origins, clipped_rings, cut_label_rows,
    cut_label_rows_in_ring, cut_labels, cut_origins, cut_origins_in_ring, cut_ring, cut_rings,
    cut_rings_in_ring, cuts_before, cuts_in_ring, kept, kept_before, kept_label_rows, kept_labels,
    kept_origins, kept_ring, kept_rings, labels_after, labels_shaped, origins_after, piece,
    piece_labels, reverse, rings_after, Side,
};
use crate::model::{head, is_dart, lemma_slot_back, rings_valid};
use crate::relink::lemma_kept_ring_at;
use crate::rings::is_rotation;

verus! {

/// One row for every vertex that stays.
proof fn lemma_kept_sizes(a: Seq<Seq<usize>>, l: Seq<Seq<i32>>, o: Seq<Side>, id: i32, v: int)
    requires
        0 <= v,
    ensures
        kept_rings(a, o, v).len() == kept_before(o, v),
        kept_label_rows(a, l, o, id, v).len() == kept_before(o, v),
        kept_origins(o, v).len() == kept_before(o, v),
    decreases v,
{
    if v > 0 {
        lemma_kept_sizes(a, l, o, id, v - 1);
    }
}

/// One row for every cut dart of a ring.
proof fn lemma_cut_sizes_in_ring(a: Seq<Seq<usize>>, l: Seq<Seq<i32>>, o: Seq<Side>, id: i32, v: int, k: int)
    requires
        0 <= k,
    ensures
        cut_rings_in_ring(a, o, v, k).len() == cuts_in_ring(a, o, v, k),
        cut_label_rows_in_ring(a, l, o, id, v, k).len() == cuts_in_ring(a, o, v, k),
        cut_origins_in_ring(a, o, v, k).len() == cuts_in_ring(a, o, v, k),
    decreases k,
{
    if k > 0 {
        lemma_cut_sizes_in_ring(a, l, o, id, v, k - 1);
    }
}

/// One row for every cut dart.
proof fn lemma_cut_sizes(a: Seq<Seq<usize>>, l: Seq<Seq<i32>>, o: Seq<Side>, id: i32, v: int)
    requires
        0 <= v,
    ensures
        cut_rings(a, o, v).len() == cuts_before(a, o, v),
        cut_label_rows(a, l, o, id, v).len() == cuts_before(a, o, v),
        cut_origins(a, o, v).len() == cuts_before(a, o, v),
    decreases v,
{
    if v > 0 {
        lemma_cut_sizes(a, l, o, id, v - 1);
        lemma_cut_sizes_in_ring(a, l, o, id, v - 1, a[v - 1].len() as int);
    }
}

/// A cut leaves as many vertices as there are vertices that stay and darts
/// that are cut; the origins and the label rows are as many.
pub proof fn lemma_cut_counts(a: Seq<Seq<usize>>, l: Seq<Seq<i32>>, o: Seq<Side>, id: i32)
    ensures
        clipped_rings(a, o).len() == kept_before(o, a.len() as int) + cuts_before(a, o, a.len() as int),
        clipped_origins(a, o).len() == clipped_rings(a, o).len(),
        clipped_labels(a, l, o, id).len() == clipped_rings(a, o).len(),
{
    lemma_kept_sizes(a, l, o, id, a.len() as int);
    lemma_cut_sizes(a, l, o, id, a.len() as int);
}

/// The labels along a new ring are as many as its places.
proof fn lemma_kept_labels_shaped(a: Seq<Seq<usize>>, l: Seq<Seq<i32>>, o: Seq<Side>, id: i32, v: int, k: int)
    requires
        0 <= k,
    ensures
        kept_labels(a, l, o, id, v, k).len() == kept_ring(a, o, v, k).len(),
    decreases k,
{
    if k > 0 {
        lemma_kept_labels_shaped(a, l, o, id, v, k - 1);
        assert(piece_labels(a, l, o, id, (v, k - 1)).len() == piece(a, o, (v, k - 1)).len());
    }
}

proof fn lemma_kept_rows_shaped(a: Seq<Seq<usize>>, l: Seq<Seq<i32>>, o: Seq<Side>, id: i32, v: int)
    requires
        0 <= v,
    ensures
        kept_label_rows(a, l, o, id, v).len() == kept_rings(a, o, v).len(),
        forall|i: int|
            0 <= i < kept_rings(a, o, v).len() ==> (#[trigger] kept_label_rows(a, l, o, id, v)[i]).len()
                == kept_rings(a, o, v)[i].len(),
    decreases v,
{
    if v > 0 {
        lemma_kept_rows_shaped(a, l, o, id, v - 1);
        lemma_kept_labels_shaped(a, l, o, id, v - 1, a[v - 1].len() as int);
    }
}

proof fn lemma_cut_rows_in_ring_shaped(a: Seq<Seq<usize>>, l: Seq<Seq<i32>>, o: Seq<Side>, id: i32, v: int, k: int)
    requires
        0 <= k,
    ensures
        cut_label_rows_in_ring(a, l, o, id, v, k).len() == cut_rings_in_ring(a, o, v, k).len(),
        forall|i: int|
            0 <= i < cut_rings_in_ring(a, o, v, k).len() ==> (#[trigger] cut_label_rows_in_ring(
                a,
                l,
                o,
                id,
                v,
                k,
            )[i]).len() == 3 && cut_rings_in_ring(a, o, v, k)[i].len() == 3,
    decreases k,
{
    if k > 0 {
        lemma_cut_rows_in_ring_shaped(a, l, o, id, v, k - 1);
        assert(cut_labels(a, l, id, (v, k - 1)).len() == 3);
        assert(cut_ring(a, o, (v, k - 1)).len() == 3);
    }
}

proof fn lemma_cut_rows_shaped(a: Seq<Seq<usize>>, l: Seq<Seq<i32>>, o: Seq<Side>, id: i32, v: int)
    requires
        0 <= v,
    ensures
        cut_label_rows(a, l, o, id, v).len() == cut_rings(a, o, v).len(),
        forall|i: int|
            0 <= i < cut_rings(a, o, v).len() ==> (#[trigger] cut_label_rows(a, l, o, id, v)[i]).len() == 3
                && cut_rings(a, o, v)[i].len() == 3,
    decreases v,
{
    if v > 0 {
        lemma_cut_rows_shaped(a, l, o, id, v - 1);
        lemma_cut_rows_in_ring_shaped(a, l, o, id, v - 1, a[v - 1].len() as int);
    }
}

/// After a cut there is a label for every dart, and every new vertex has
/// three neighbours.
pub proof fn lemma_cut_shapes(a: Seq<Seq<usize>>, l: Seq<Seq<i32>>, o: Seq<Side>, id: i32)
    ensures
        labels_shaped(clipped_rings(a, o), clipped_labels(a, l, o, id)),
        forall|i: int|
            kept_before(o, a.len() as int) <= i < clipped_rings(a, o).len() ==> (#[trigger] clipped_rings(
                a,
                o,
            )[i]).len() == 3,
{
    let n = a.len() as int;
    lemma_cut_counts(a, l, o, id);
    lemma_kept_sizes(a, l, o, id, n);
    lemma_kept_rows_shaped(a, l, o, id, n);
    lemma_cut_rows_shaped(a, l, o, id, n);
    let r = clipped_rings(a, o);
    let t = clipped_labels(a, l, o, id);
    assert forall|i: int| 0 <= i < r.len() implies (#[trigger] t[i]).len() == r[i].len() by {
        if i < kept_rings(a, o, n).len() {
            assert(t[i] == kept_label_rows(a, l, o, id, n)[i]);
        } else {
            let j = i - kept_rings(a, o, n).len();
            assert(t[i] == cut_label_rows(a, l, o, id, n)[j]);
            assert(r[i] == cut_rings(a, o, n)[j]);
        }
    }
    assert forall|i: int| kept_before(o, n) <= i < r.len() implies (#[trigger] r[i]).len() == 3 by {
        let j = i - kept_rings(a, o, n).len();
        assert(r[i] == cut_rings(a, o, n)[j]);
        assert(cut_label_rows(a, l, o, id, n)[j].len() == 3);
    }
}

/// The new ring of an inner vertex has as many places as the old one.
proof fn lemma_inner_ring_len(a: Seq<Seq<usize>>, o: Seq<Side>, v: int, k: int)
    requires
        0 <= k,
        o[v] is Inside,
    ensures
        kept_ring(a, o, v, k).len() == k,
    decreases k,
{
    if k > 0 {
        lemma_inner_ring_len(a, o, v, k - 1);
        assert(piece(a, o, (v, k - 1)).len() == 1);
    }
}

/// A cut leaves an inner vertex as many neighbours as it had: each of its
/// edges stays, or ends at the new vertex on it.
pub proof fn lemma_inner_vertex_keeps_degree(a: Seq<Seq<usize>>, o: Seq<Side>, v: int)
    requires
        0 <= v < a.len(),
        o[v] is Inside,
    ensures
        0 <= kept_before(o, v) < clipped_rings(a, o).len(),
        clipped_rings(a, o)[kept_before(o, v)].len() == a[v].len(),
{
    lemma_kept_ring_at(a, o, v, a.len() as int);
    lemma_inner_ring_len(a, o, v, a[v].len() as int);
}

/// The vertices that stay come from themselves, in their old order.
proof fn lemma_kept_origins(o: Seq<Side>, v: int)
    requires
        0 <= v <= o.len(),
        o.len() <= usize::MAX,
    ensures
        forall|i: int|
            0 <= i < kept_origins(o, v).len() ==> {
                let g = #[trigger] kept_origins(o, v)[i];
                g.0 == g.1 && g.0 < v && kept(o, g.0 as int) && kept_before(o, g.0 as int) == i
            },
    decreases v,
{
    if v > 0 {
        lemma_kept_origins(o, v - 1);
        lemma_kept_sizes(Seq::empty(), Seq::empty(), o, 0, v - 1);
    }
}

proof fn lemma_cut_origins_in_ring(a: Seq<Seq<usize>>, o: Seq<Side>, v: int, k: int)
    requires
        rings_valid(a),
        0 <= v < a.len(),
        0 <= k <= a[v].len(),
    ensures
        forall|i: int|
            0 <= i < cut_origins_in_ring(a, o, v, k).len() ==> {
                let g = #[trigger] cut_origins_in_ring(a, o, v, k)[i];
                g.0 == v && a[v].contains(g.1) && o[g.0 as int] is Inside && o[g.1 as int] is Outside
            },
    decreases k,
{
    if k > 0 {
        lemma_cut_origins_in_ring(a, o, v, k - 1);
        assert(is_dart(a, (v, k - 1)));
        assert(a[v][k - 1] == head(a, (v, k - 1)));
    }
}

proof fn lemma_cut_origins(a: Seq<Seq<usize>>, o: Seq<Side>, v: int)
    requires
        rings_valid(a),
        0 <= v <= a.len(),
    ensures
        forall|i: int|
            0 <= i < cut_origins(a, o, v).len() ==> {
                let g = #[trigger] cut_origins(a, o, v)[i];
                g.0 < a.len() && a[g.0 as int].contains(g.1) && o[g.0 as int] is Inside && o[g.1 as int] is Outside
            },
    decreases v,
{
    if v > 0 {
        lemma_cut_origins(a, o, v - 1);
        lemma_cut_origins_in_ring(a, o, v - 1, a[v - 1].len() as int);
    }
}

/// Where the vertices of a cut come from: the first ones are the vertices
/// that stay, each under the number of kept vertices before it; every
/// other one lies on an edge that leads from an inner vertex to a vertex
/// beyond the plane.
pub proof fn lemma_origins(a: Seq<Seq<usize>>, o: Seq<Side>)
    requires
        is_rotation(a),
        o.len() == a.len(),
    ensures
        forall|i: int|
            0 <= i < kept_before(o, a.len() as int) ==> {
                let g = #[trigger] clipped_origins(a, o)[i];
                g.0 == g.1 && g.0 < a.len() && kept(o, g.0 as int) && kept_before(o, g.0 as int) == i
            },
        forall|i: int|
            kept_before(o, a.len() as int) <= i < clipped_origins(a, o).len() ==> {
                let g = #[trigger] clipped_origins(a, o)[i];
                g.0 < a.len() && a[g.0 as int].contains(g.1) && o[g.0 as int] is Inside && o[g.1 as int] is Outside
            },
{
    let n = a.len() as int;
    lemma_kept_sizes(a, Seq::empty(), o, 0, n);
    lemma_kept_origins(o, n);
    lemma_cut_origins(a, o, n);
    assert forall|i: int| 0 <= i < kept_before(o, n) implies {
        let g = #[trigger] clipped_origins(a, o)[i];
        g.0 == g.1 && g.0 < a.len() && kept(o, g.0 as int) && kept_before(o, g.0 as int) == i
    } by {
        assert(clipped_origins(a, o)[i] == kept_origins(o, n)[i]);
    }
    assert forall|i: int| kept_before(o, n) <= i < clipped_origins(a, o).len() implies {
        let g = #[trigger] clipped_origins(a, o)[i];
        g.0 < a.len() && a[g.0 as int].contains(g.1) && o[g.0 as int] is Inside && o[g.1 as int] is Outside
    } by {
        assert(clipped_origins(a, o)[i] == cut_origins(a, o, n)[i - kept_before(o, n)]);
    }
}

/// The side of a vertex after the cut: a vertex that stays lies where it
/// lay, a new vertex lies on the plane.
pub open spec fn side_after(o: Seq<Side>, g: (usize, usize)) -> Side {
    if g.0 == g.1 {
        o[g.0 as int]
    } else {
        Side::OnPlane
    }
}

/// The sides of the vertices with respect to a plane once that plane has
/// been applied.
pub open spec fn sides_after(a: Seq<Seq<usize>>, o: Seq<Side>) -> Seq<Side> {
    origins_after(a, o).map_values(|g: (usize, usize)| side_after(o, g))
}

/// The same plane applied again changes nothing: after a plane has been
/// applied no vertex lies beyond it, so that the second application leaves
/// the rings and the labels as the first left them.
pub proof fn lemma_same_plane_again(a: Seq<Seq<usize>>, l: Seq<Seq<i32>>, o: Seq<Side>, id: i32, id2: i32)
    requires
        is_rotation(a),
        o.len() == a.len(),
    ensures
        sides_after(a, o).len() == rings_after(a, o).len(),
        !any_outside(sides_after(a, o)),
        rings_after(rings_after(a, o), sides_after(a, o)) == rings_after(a, o),
        labels_after(rings_after(a, o), labels_after(a, l, o, id), sides_after(a, o), id2) == labels_after(
            a,
            l,
            o,
            id,
        ),
{
    let s = sides_after(a, o);
    lemma_cut_counts(a, l, o, id);
    if any_outside(o) {
        lemma_origins(a, o);
        assert forall|i: int| 0 <= i < s.len() implies !(#[trigger] s[i] is Outside) by {
            let g = clipped_origins(a, o)[i];
            if i < kept_before(o, a.len() as int) {
                assert(kept(o, g.0 as int));
            } else {
                assert(a[g.0 as int].contains(g.1));
                let k = choose|k: int| 0 <= k < a[g.0 as int].len() && a[g.0 as int][k] == g.1;
                assert(is_dart(a, (g.0 as int, k)));
                assert(a[g.0 as int][k] != g.0);
            }
        }
    } else {
        assert forall|i: int| 0 <= i < s.len() implies !(#[trigger] s[i] is Outside) by {
            assert(s[i] == o[i]);
        }
    }
}

/// The label that a dart holds.
pub open spec fn label_at(l: Seq<Seq<i32>>, d: (int, int)) -> i32 {
    l[d.0][d.1]
}

/// The label is the one given with the plane, or one that a dart held
/// before the cut.
pub open spec fn known_label(a: Seq<Seq<usize>>, l: Seq<Seq<i32>>, id: i32, x: i32) -> bool {
    x == id || exists|d: (int, int)| is_dart(a, d) && #[trigger] label_at(l, d) == x
}

proof fn lemma_kept_labels_known(a: Seq<Seq<usize>>, l: Seq<Seq<i32>>, o: Seq<Side>, id: i32, v: int, k: int)
    requires
        0 <= v < a.len(),
        0 <= k <= a[v].len(),
    ensures
        forall|i: int|
            0 <= i < kept_labels(a, l, o, id, v, k).len() ==> known_label(
                a,
                l,
                id,
                #[trigger] kept_labels(a, l, o, id, v, k)[i],
            ),
    decreases k,
{
    if k > 0 {
        lemma_kept_labels_known(a, l, o, id, v, k - 1);
        let d = (v, k - 1);
        assert(is_dart(a, d));
        assert(label_at(l, d) == l[d.0][d.1]);
        let before = kept_labels(a, l, o, id, v, k - 1);
        let piece = piece_labels(a, l, o, id, d);
        assert forall|i: int| 0 <= i < piece.len() implies known_label(a, l, id, #[trigger] piece[i]) by {
            assert(piece[i] == id || piece[i] == label_at(l, d));
        }
        assert forall|i: int| 0 <= i < kept_labels(a, l, o, id, v, k).len() implies known_label(
            a,
            l,
            id,
            #[trigger] kept_labels(a, l, o, id, v, k)[i],
        ) by {
            if i < before.len() {
                assert(kept_labels(a, l, o, id, v, k)[i] == before[i]);
            } else {
                assert(kept_labels(a, l, o, id, v, k)[i] == piece[i - before.len()]);
            }
        }
    }
}

/// Every row of labels holds known labels only.
spec fn rows_known(a: Seq<Seq<usize>>, l: Seq<Seq<i32>>, id: i32, t: Seq<Seq<i32>>) -> bool {
    forall|i: int, k: int| 0 <= i < t.len() && 0 <= k < t[i].len() ==> known_label(a, l, id, #[trigger] t[i][k])
}

proof fn lemma_kept_rows_known(a: Seq<Seq<usize>>, l: Seq<Seq<i32>>, o: Seq<Side>, id: i32, v: int)
    requires
        0 <= v <= a.len(),
    ensures
        rows_known(a, l, id, kept_label_rows(a, l, o, id, v)),
    decreases v,
{
    if v > 0 {
        lemma_kept_rows_known(a, l, o, id, v - 1);
        lemma_kept_labels_known(a, l, o, id, v - 1, a[v - 1].len() as int);
    }
}

proof fn lemma_cut_rows_in_ring_known(a: Seq<Seq<usize>>, l: Seq<Seq<i32>>, o: Seq<Side>, id: i32, v: int, k: int)
    requires
        rings_valid(a),
        0 <= v < a.len(),
        0 <= k <= a[v].len(),
    ensures
        rows_known(a, l, id, cut_label_rows_in_ring(a, l, o, id, v, k)),
    decreases k,
{
    if k > 0 {
        lemma_cut_rows_in_ring_known(a, l, o, id, v, k - 1);
        let d = (v, k - 1);
        lemma_slot_back(a, d);
        let r = reverse(a, d);
        assert(is_dart(a, r));
        let row = cut_labels(a, l, id, d);
        assert(row[0] == label_at(l, r));
        assert(row[1] == label_at(l, d));
        assert(row[2] == id);
        assert forall|j: int| 0 <= j < row.len() implies known_label(a, l, id, #[trigger] row[j]) by {
            assert(j == 0 || j == 1 || j == 2);
        }
    }
}

proof fn lemma_cut_rows_known(a: Seq<Seq<usize>>, l: Seq<Seq<i32>>, o: Seq<Side>, id: i32, v: int)
    requires
        rings_valid(a),
        0 <= v <= a.len(),
    ensures
        rows_known(a, l, id, cut_label_rows(a, l, o, id, v)),
    decreases v,
{
    if v > 0 {
        lemma_cut_rows_known(a, l, o, id, v - 1);
        lemma_cut_rows_in_ring_known(a, l, o, id, v - 1, a[v - 1].len() as int);
        let before = cut_label_rows(a, l, o, id, v - 1);
        let more = cut_label_rows_in_ring(a, l, o, id, v - 1, a[v - 1].len() as int);
        let t = cut_label_rows(a, l, o, id, v);
        assert forall|i: int, k: int| 0 <= i < t.len() && 0 <= k < t[i].len() implies known_label(
            a,
            l,
            id,
            #[trigger] t[i][k],
        ) by {
            if i < before.len() {
                assert(t[i] == before[i]);
            } else {
                assert(t[i] == more[i - before.len()]);
            }
        }
    }
}

/// A cut invents no label: every label after it is the one given with the
/// plane or one that a dart held before.
pub proof fn lemma_labels_are_known(a: Seq<Seq<usize>>, l: Seq<Seq<i32>>, o: Seq<Side>, id: i32)
    requires
        rings_valid(a),
    ensures
        forall|i: int, k: int|
            0 <= i < clipped_labels(a, l, o, id).len() && 0 <= k < clipped_labels(a, l, o, id)[i].len()
                ==> known_label(a, l, id, #[trigger] clipped_labels(a, l, o, id)[i][k]),
{
    let n = a.len() as int;
    lemma_kept_rows_known(a, l, o, id, n);
    lemma_cut_rows_known(a, l, o, id, n);
    let first = kept_label_rows(a, l, o, id, n);
    let second = cut_label_rows(a, l, o, id, n);
    let t = clipped_labels(a, l, o, id);
    assert forall|i: int, k: int| 0 <= i < t.len() && 0 <= k < t[i].len() implies known_label(
        a,
        l,
        id,
        #[trigger] t[i][k],
    ) by {
        if i < first.len() {
            assert(t[i] == first[i]);
        } else {
            assert(t[i] == second[i - first.len()]);
        }
    }
}

} // verus!
