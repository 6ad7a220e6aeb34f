//! A cut links the vertices that it leaves to one another: what stands in a
//! ring after the cut is a vertex, and an edge is listed at both of its ends.
use vstd::prelude::*;
use crate::clip::{
    clipped_rings, corner_ahead, corner_behind, cut_index, cut_ring, cut_rings, cut_rings_in_ring,
    cuts_before, cuts_in_ring, enter, gate_ahead, gate_behind, gate_index, gate_out, is_cut, kept,
    kept_before, kept_ring, kept_rings, leave, piece, reverse, Side,
};
use crate::cut::{lemma_counts, lemma_ring_counts, lemma_three_darts_each};
use crate::model::{
    after, before, degree_sum, head, is_dart, lemma_slot, lemma_slot_back, rings_valid,
};
use crate::rings::is_rotation;
use crate::walks::{lemma_ahead_and_back, lemma_back_and_ahead};

verus! {

/// The dart back along the edge of the dart back along an edge is the dart.
proof fn lemma_reverse_twice(a: Seq<Seq<usize>>, d: (int, int))
    requires
        rings_valid(a),
        is_dart(a, d),
    ensures
        is_dart(a, reverse(a, d)),
        head(a, reverse(a, d)) == d.0,
        reverse(a, reverse(a, d)) == d,
{
    lemma_slot_back(a, d);
    lemma_slot(a, d.0, d.1);
}

/// More vertices counted, more vertices kept.
proof fn lemma_kept_before_grows(o: Seq<Side>, v: int, m: int)
    requires
        0 <= v <= m,
    ensures
        kept_before(o, v) <= kept_before(o, m),
        v < m && kept(o, v) ==> kept_before(o, v) < kept_before(o, m),
    decreases m,
{
    if v < m {
        lemma_kept_before_grows(o, v, m - 1);
    }
}

/// More places counted, more cut darts.
proof fn lemma_cuts_in_ring_grow(a: Seq<Seq<usize>>, o: Seq<Side>, v: int, k: int, m: int)
    requires
        0 <= k <= m,
    ensures
        cuts_in_ring(a, o, v, k) <= cuts_in_ring(a, o, v, m),
        k < m && is_cut(a, o, (v, k)) ==> cuts_in_ring(a, o, v, k) < cuts_in_ring(a, o, v, m),
    decreases m,
{
    if k < m {
        lemma_cuts_in_ring_grow(a, o, v, k, m - 1);
    }
}

/// More vertices counted, more cut darts.
proof fn lemma_cuts_before_grow(a: Seq<Seq<usize>>, o: Seq<Side>, v: int, m: int)
    requires
        0 <= v <= m,
    ensures
        cuts_before(a, o, v) <= cuts_before(a, o, m),
        v < m ==> cuts_before(a, o, v) + cuts_in_ring(a, o, v, a[v].len() as int) <= cuts_before(a, o, m),
    decreases m,
{
    if v < m {
        lemma_cuts_before_grow(a, o, v, m - 1);
        lemma_ring_counts(a, o, m - 1, a[m - 1].len() as int);
    }
}

/// The new ring of a kept vertex stands under its new number.
pub(crate) proof fn lemma_kept_ring_at(a: Seq<Seq<usize>>, o: Seq<Side>, v: int, m: int)
    requires
        0 <= v < m,
        kept(o, v),
    ensures
        0 <= kept_before(o, v) < kept_rings(a, o, m).len(),
        kept_rings(a, o, m)[kept_before(o, v)] == kept_ring(a, o, v, a[v].len() as int),
        kept_rings(a, o, m).len() == kept_before(o, m),
    decreases m,
{
    lemma_kept_len(a, o, m);
    lemma_kept_len(a, o, m - 1);
    lemma_kept_before_grows(o, v, m);
    lemma_kept_before_grows(o, 0, v);
    if v < m - 1 {
        lemma_kept_ring_at(a, o, v, m - 1);
    }
}

proof fn lemma_kept_len(a: Seq<Seq<usize>>, o: Seq<Side>, m: int)
    ensures
        kept_rings(a, o, m).len() == kept_before(o, m),
    decreases m,
{
    if m > 0 {
        lemma_kept_len(a, o, m - 1);
    }
}

proof fn lemma_cut_len_in_ring(a: Seq<Seq<usize>>, o: Seq<Side>, v: int, k: int)
    ensures
        cut_rings_in_ring(a, o, v, k).len() == cuts_in_ring(a, o, v, k),
    decreases k,
{
    if k > 0 {
        lemma_cut_len_in_ring(a, o, v, k - 1);
    }
}

proof fn lemma_cut_len(a: Seq<Seq<usize>>, o: Seq<Side>, m: int)
    ensures
        cut_rings(a, o, m).len() == cuts_before(a, o, m),
    decreases m,
{
    if m > 0 {
        lemma_cut_len(a, o, m - 1);
        lemma_cut_len_in_ring(a, o, m - 1, a[m - 1].len() as int);
    }
}

/// The ring of the new vertex on a cut dart stands, among the rings of the
/// new vertices of its ring, where the count of cut darts before it says.
proof fn lemma_cut_ring_in_ring_at(a: Seq<Seq<usize>>, o: Seq<Side>, d: (int, int), m: int)
    requires
        0 <= d.1 < m,
        is_cut(a, o, d),
    ensures
        0 <= cuts_in_ring(a, o, d.0, d.1) < cut_rings_in_ring(a, o, d.0, m).len(),
        cut_rings_in_ring(a, o, d.0, m)[cuts_in_ring(a, o, d.0, d.1)] == cut_ring(a, o, d),
    decreases m,
{
    lemma_cut_len_in_ring(a, o, d.0, m);
    lemma_cut_len_in_ring(a, o, d.0, m - 1);
    lemma_cuts_in_ring_grow(a, o, d.0, d.1, m);
    lemma_ring_counts(a, o, d.0, d.1);
    if d.1 < m - 1 {
        lemma_cut_ring_in_ring_at(a, o, d, m - 1);
    }
}

/// The ring of the new vertex on a cut dart stands, among the rings of the
/// new vertices, where the count of cut darts before it says.
proof fn lemma_cut_ring_at(a: Seq<Seq<usize>>, o: Seq<Side>, d: (int, int), m: int)
    requires
        is_dart(a, d),
        d.0 < m,
        is_cut(a, o, d),
    ensures
        0 <= cuts_before(a, o, d.0) + cuts_in_ring(a, o, d.0, d.1) < cut_rings(a, o, m).len(),
        cut_rings(a, o, m)[cuts_before(a, o, d.0) + cuts_in_ring(a, o, d.0, d.1)] == cut_ring(a, o, d),
    decreases m,
{
    lemma_cut_len(a, o, m);
    lemma_cut_len(a, o, m - 1);
    lemma_cut_len_in_ring(a, o, m - 1, a[m - 1].len() as int);
    lemma_cuts_before_grow(a, o, 0, d.0);
    lemma_ring_counts(a, o, d.0, d.1);
    if d.0 < m - 1 {
        lemma_cut_ring_at(a, o, d, m - 1);
    } else {
        lemma_cut_ring_in_ring_at(a, o, d, a[d.0].len() as int);
    }
}

/// A vertex of the cut is named well: it is a kept vertex that lies on the
/// plane, or the new vertex of a cut dart.
spec fn is_gate(a: Seq<Seq<usize>>, o: Seq<Side>, g: (int, int)) -> bool {
    if g.1 < 0 {
        0 <= g.0 < a.len() && kept(o, g.0)
    } else {
        is_dart(a, g) && is_cut(a, o, g)
    }
}

/// The ring of a vertex of the cut.
spec fn gate_ring(a: Seq<Seq<usize>>, o: Seq<Side>, g: (int, int)) -> Seq<usize> {
    if g.1 < 0 {
        kept_ring(a, o, g.0, a[g.0].len() as int)
    } else {
        cut_ring(a, o, g)
    }
}

/// The ring of a vertex stands in the rings that the cut leaves under the
/// new number of the vertex, and that number is one that can be held.
proof fn lemma_ring_at(a: Seq<Seq<usize>>, o: Seq<Side>, g: (int, int))
    requires
        is_rotation(a),
        is_gate(a, o, g),
    ensures
        0 <= gate_index(a, o, g) < clipped_rings(a, o).len(),
        gate_index(a, o, g) <= usize::MAX,
        clipped_rings(a, o)[gate_index(a, o, g)] == gate_ring(a, o, g),
{
    let n = a.len() as int;
    lemma_kept_len(a, o, n);
    lemma_cut_len(a, o, n);
    lemma_counts(a, o, n);
    lemma_three_darts_each(a, n);
    if g.1 < 0 {
        lemma_kept_ring_at(a, o, g.0, n);
    } else {
        lemma_cut_ring_at(a, o, g, n);
    }
}

/// What stands in one of two sequences stands in the two put together.
proof fn lemma_contains_add(s: Seq<usize>, t: Seq<usize>, x: usize)
    ensures
        (s + t).contains(x) <==> s.contains(x) || t.contains(x),
{
    if s.contains(x) {
        let i = choose|i: int| 0 <= i < s.len() && s[i] == x;
        assert((s + t)[i] == x);
    }
    if t.contains(x) {
        let i = choose|i: int| 0 <= i < t.len() && t[i] == x;
        assert((s + t)[s.len() + i] == x);
    }
    if (s + t).contains(x) {
        let i = choose|i: int| 0 <= i < (s + t).len() && (s + t)[i] == x;
        if i < s.len() {
            assert(s[i] == x);
        } else {
            assert(t[i - s.len()] == x);
        }
    }
}

/// What a place of a ring turns into stands in the new ring.
proof fn lemma_piece_in_ring(a: Seq<Seq<usize>>, o: Seq<Side>, v: int, k: int, m: int, x: usize)
    requires
        0 <= k < m,
        piece(a, o, (v, k)).contains(x),
    ensures
        kept_ring(a, o, v, m).contains(x),
    decreases m,
{
    lemma_contains_add(kept_ring(a, o, v, m - 1), piece(a, o, (v, m - 1)), x);
    if k < m - 1 {
        lemma_piece_in_ring(a, o, v, k, m - 1, x);
    }
}

/// What stands in the new ring comes from a place of the old one.
proof fn lemma_ring_from_piece(a: Seq<Seq<usize>>, o: Seq<Side>, v: int, m: int, x: usize) -> (k: int)
    requires
        kept_ring(a, o, v, m).contains(x),
    ensures
        0 <= k < m,
        piece(a, o, (v, k)).contains(x),
    decreases m,
{
    if m <= 0 {
        assert(kept_ring(a, o, v, m).len() == 0);
        0
    } else {
        lemma_contains_add(kept_ring(a, o, v, m - 1), piece(a, o, (v, m - 1)), x);
        if piece(a, o, (v, m - 1)).contains(x) {
            m - 1
        } else {
            lemma_ring_from_piece(a, o, v, m - 1, x)
        }
    }
}

/// A kept vertex stands in the new ring of each of its kept neighbours.
proof fn lemma_kept_edge(a: Seq<Seq<usize>>, o: Seq<Side>, d: (int, int))
    requires
        is_rotation(a),
        o.len() == a.len(),
        is_dart(a, d),
        kept(o, d.0),
        kept(o, head(a, d)),
    ensures
        gate_ring(a, o, (head(a, d), -1int)).contains(kept_before(o, d.0) as usize),
{
    let w = head(a, d);
    lemma_reverse_twice(a, d);
    let r = reverse(a, d);
    assert(piece(a, o, r) == seq![kept_before(o, d.0) as usize]);
    assert(piece(a, o, r)[0] == kept_before(o, d.0) as usize);
    lemma_piece_in_ring(a, o, w, r.1, a[w].len() as int, kept_before(o, d.0) as usize);
}

/// The vertex of the cut ahead of a dart lists the vertex of the cut at
/// the dart's own tail.
proof fn lemma_link_ahead(a: Seq<Seq<usize>>, o: Seq<Side>, d: (int, int))
    requires
        is_rotation(a),
        o.len() == a.len(),
        is_dart(a, d),
        kept(o, d.0),
        !kept(o, head(a, d)),
        o[d.0] is Inside || corner_ahead(a, o, d),
    ensures
        is_gate(a, o, gate_ahead(a, o, d)),
        is_gate(a, o, gate_out(o, d)),
        gate_ring(a, o, gate_ahead(a, o, d)).contains(gate_index(a, o, gate_out(o, d)) as usize),
{
    let fuel = degree_sum(a, a.len() as int) as nat;
    let e = enter(a, o, d, fuel);
    lemma_ahead_and_back(a, o, d);
    lemma_reverse_twice(a, e);
    let y = head(a, e);
    let me = gate_out(o, d);
    let mine = gate_index(a, o, me) as usize;
    let back = reverse(a, e);
    assert(gate_behind(a, o, back) == me);
    if o[y] is Inside {
        assert(cut_ring(a, o, back)[2] == mine);
    } else {
        let m = a[y].len() as int;
        let q = a[y][after(back.1, m)] as int;
        if corner_behind(a, o, back) {
            assert(piece(a, o, back) == (if corner_ahead(a, o, back) {
                seq![gate_index(a, o, gate_ahead(a, o, back)) as usize]
            } else {
                Seq::<usize>::empty()
            }) + seq![mine]);
            assert(seq![mine][0] == mine);
            lemma_contains_add(
                if corner_ahead(a, o, back) {
                    seq![gate_index(a, o, gate_ahead(a, o, back)) as usize]
                } else {
                    Seq::<usize>::empty()
                },
                seq![mine],
                mine,
            );
            lemma_piece_in_ring(a, o, y, back.1, m, mine);
        } else {
            assert(me == (q, -1int));
            let next_place = (y, after(back.1, m));
            assert(is_dart(a, next_place));
            assert(piece(a, o, next_place) == seq![kept_before(o, q) as usize]);
            assert(piece(a, o, next_place)[0] == mine);
            lemma_piece_in_ring(a, o, y, next_place.1, m, mine);
        }
    }
}

/// The vertex of the cut behind a dart lists the vertex of the cut at the
/// dart's own tail.
proof fn lemma_link_behind(a: Seq<Seq<usize>>, o: Seq<Side>, d: (int, int))
    requires
        is_rotation(a),
        o.len() == a.len(),
        is_dart(a, d),
        kept(o, d.0),
        !kept(o, head(a, d)),
        o[d.0] is Inside || corner_behind(a, o, d),
    ensures
        is_gate(a, o, gate_behind(a, o, d)),
        gate_ring(a, o, gate_behind(a, o, d)).contains(gate_index(a, o, gate_out(o, d)) as usize),
{
    let fuel = degree_sum(a, a.len() as int) as nat;
    lemma_reverse_twice(a, d);
    let rd = reverse(a, d);
    let f = leave(a, o, rd, fuel);
    lemma_back_and_ahead(a, o, rd);
    let y = f.0;
    let me = gate_out(o, d);
    let mine = gate_index(a, o, me) as usize;
    assert(gate_ahead(a, o, f) == me);
    if o[y] is Inside {
        assert(cut_ring(a, o, f)[1] == mine);
    } else {
        let m = a[y].len() as int;
        let p = a[y][before(f.1, m)] as int;
        if corner_ahead(a, o, f) {
            assert(piece(a, o, f) == seq![mine] + (if corner_behind(a, o, f) {
                seq![gate_index(a, o, gate_behind(a, o, f)) as usize]
            } else {
                Seq::<usize>::empty()
            }));
            assert(seq![mine][0] == mine);
            lemma_contains_add(
                seq![mine],
                if corner_behind(a, o, f) {
                    seq![gate_index(a, o, gate_behind(a, o, f)) as usize]
                } else {
                    Seq::<usize>::empty()
                },
                mine,
            );
            lemma_piece_in_ring(a, o, y, f.1, m, mine);
        } else {
            assert(me == (p, -1int));
            let place = (y, before(f.1, m));
            assert(is_dart(a, place));
            assert(piece(a, o, place) == seq![kept_before(o, p) as usize]);
            assert(piece(a, o, place)[0] == mine);
            lemma_piece_in_ring(a, o, y, place.1, m, mine);
        }
    }
}

/// Every number below the count of kept vertices is the new number of one.
proof fn lemma_find_kept(o: Seq<Side>, m: int, i: int) -> (v: int)
    requires
        0 <= i < kept_before(o, m),
    ensures
        0 <= v < m,
        kept(o, v),
        kept_before(o, v) == i,
    decreases m,
{
    if m <= 0 {
        0
    } else if kept(o, m - 1) && kept_before(o, m - 1) == i {
        m - 1
    } else {
        lemma_find_kept(o, m - 1, i)
    }
}

/// Every number below the count of cut darts in a ring is that of one.
proof fn lemma_find_cut_in_ring(a: Seq<Seq<usize>>, o: Seq<Side>, v: int, k: int, c: int) -> (j: int)
    requires
        0 <= c < cuts_in_ring(a, o, v, k),
    ensures
        0 <= j < k,
        is_cut(a, o, (v, j)),
        cuts_in_ring(a, o, v, j) == c,
    decreases k,
{
    if k <= 0 {
        0
    } else if is_cut(a, o, (v, k - 1)) && cuts_in_ring(a, o, v, k - 1) == c {
        k - 1
    } else {
        lemma_find_cut_in_ring(a, o, v, k - 1, c)
    }
}

/// Every number below the count of cut darts is that of one.
proof fn lemma_find_cut(a: Seq<Seq<usize>>, o: Seq<Side>, m: int, c: int) -> (d: (int, int))
    requires
        0 <= c < cuts_before(a, o, m),
        m <= a.len(),
    ensures
        is_dart(a, d),
        d.0 < m,
        is_cut(a, o, d),
        cuts_before(a, o, d.0) + cuts_in_ring(a, o, d.0, d.1) == c,
    decreases m,
{
    if m <= 0 {
        (0, 0)
    } else if c < cuts_before(a, o, m - 1) {
        lemma_find_cut(a, o, m - 1, c)
    } else {
        let j = lemma_find_cut_in_ring(a, o, m - 1, a[m - 1].len() as int, c - cuts_before(a, o, m - 1));
        (m - 1, j)
    }
}

/// Every vertex that the cut leaves is a kept vertex or the new vertex of a
/// cut dart, and its ring is the ring of that vertex.
proof fn lemma_vertex_is_gate(a: Seq<Seq<usize>>, o: Seq<Side>, i: int) -> (g: (int, int))
    requires
        is_rotation(a),
        o.len() == a.len(),
        0 <= i < clipped_rings(a, o).len(),
    ensures
        is_gate(a, o, g),
        gate_index(a, o, g) == i,
        clipped_rings(a, o)[i] == gate_ring(a, o, g),
        i <= usize::MAX,
{
    let n = a.len() as int;
    lemma_kept_len(a, o, n);
    lemma_cut_len(a, o, n);
    let g = if i < kept_before(o, n) {
        (lemma_find_kept(o, n, i), -1int)
    } else {
        lemma_find_cut(a, o, n, i - kept_before(o, n))
    };
    lemma_ring_at(a, o, g);
    g
}

/// What one entry of the rings after a cut is: a vertex of the cut graph
/// whose own ring holds the owner of the entry.
proof fn lemma_entry_links(a: Seq<Seq<usize>>, o: Seq<Side>, i: int, j: int)
    requires
        is_rotation(a),
        o.len() == a.len(),
        0 <= i < clipped_rings(a, o).len(),
        0 <= j < clipped_rings(a, o)[i].len(),
    ensures
        clipped_rings(a, o)[i][j] < clipped_rings(a, o).len(),
        clipped_rings(a, o)[clipped_rings(a, o)[i][j] as int].contains(i as usize),
{
    let r = clipped_rings(a, o);
    let x = r[i][j];
    let g = lemma_vertex_is_gate(a, o, i);
    if g.1 < 0 {
        let v = g.0;
        assert(r[i].contains(x));
        let k = lemma_ring_from_piece(a, o, v, a[v].len() as int, x);
        let d = (v, k);
        let w = head(a, d);
        assert(is_dart(a, d));
        if kept(o, w) {
            assert(piece(a, o, d) == seq![kept_before(o, w) as usize]);
            let at = choose|at: int| 0 <= at < piece(a, o, d).len() && piece(a, o, d)[at] == x;
            lemma_ring_at(a, o, (w, -1int));
            lemma_kept_edge(a, o, d);
        } else if o[v] is Inside {
            assert(piece(a, o, d) == seq![cut_index(a, o, d) as usize]);
            let at = choose|at: int| 0 <= at < piece(a, o, d).len() && piece(a, o, d)[at] == x;
            lemma_ring_at(a, o, d);
            assert(cut_ring(a, o, d)[0] == i as usize);
        } else {
            let first = if corner_ahead(a, o, d) {
                seq![gate_index(a, o, gate_ahead(a, o, d)) as usize]
            } else {
                Seq::<usize>::empty()
            };
            let second = if corner_behind(a, o, d) {
                seq![gate_index(a, o, gate_behind(a, o, d)) as usize]
            } else {
                Seq::<usize>::empty()
            };
            assert(piece(a, o, d) == first + second);
            lemma_contains_add(first, second, x);
            if first.contains(x) {
                let at = choose|at: int| 0 <= at < first.len() && first[at] == x;
                lemma_link_ahead(a, o, d);
                lemma_ring_at(a, o, gate_ahead(a, o, d));
            } else {
                let at = choose|at: int| 0 <= at < second.len() && second[at] == x;
                lemma_link_behind(a, o, d);
                lemma_ring_at(a, o, gate_behind(a, o, d));
            }
        }
    } else {
        let d = g;
        assert(r[i] == cut_ring(a, o, d));
        if j == 0 {
            lemma_ring_at(a, o, (d.0, -1int));
            assert(piece(a, o, d) == seq![cut_index(a, o, d) as usize]);
            assert(piece(a, o, d)[0] == i as usize);
            lemma_piece_in_ring(a, o, d.0, d.1, a[d.0].len() as int, i as usize);
        } else if j == 1 {
            lemma_link_ahead(a, o, d);
            lemma_ring_at(a, o, gate_ahead(a, o, d));
        } else {
            lemma_link_behind(a, o, d);
            lemma_ring_at(a, o, gate_behind(a, o, d));
        }
    }
}

/// A cut links what it leaves: every entry of the rings after the cut is a
/// vertex of the cut graph, and every edge is listed at both of its ends.
pub proof fn lemma_cut_relinks(a: Seq<Seq<usize>>, o: Seq<Side>)
    requires
        is_rotation(a),
        o.len() == a.len(),
    ensures
        forall|i: int, j: int|
            0 <= i < clipped_rings(a, o).len() && 0 <= j < clipped_rings(a, o)[i].len() ==> (
            #[trigger] clipped_rings(a, o)[i][j]) < clipped_rings(a, o).len() && clipped_rings(
                a,
                o,
            )[clipped_rings(a, o)[i][j] as int].contains(i as usize),
{
    assert forall|i: int, j: int|
        0 <= i < clipped_rings(a, o).len() && 0 <= j < clipped_rings(a, o)[i].len() implies (
    #[trigger] clipped_rings(a, o)[i][j]) < clipped_rings(a, o).len() && clipped_rings(a, o)[clipped_rings(
        a,
        o,
    )[i][j] as int].contains(i as usize) by {
        lemma_entry_links(a, o, i, j);
    }
}

} // verus!
