//! Cutting the rings of a graph, given the side of every vertex.
use vstd::prelude::*;
use crate::clip::{
    any_inside, any_outside, clipped_labels, clipped_origins, clipped_rings, corner_ahead,
    corner_behind, cut_index, cut_label_rows, cut_label_rows_in_ring, cut_labels, cut_origins,
    cut_origins_in_ring, cut_ring, cut_rings, cut_rings_in_ring, cuts_before, cuts_in_ring, enter,
    face_gone, gate_ahead, gate_behind, gate_index, kept, kept_before, kept_label_rows,
    kept_labels, kept_origins, kept_ring, kept_rings, labels_shaped, leave, piece, piece_labels,
    Side,
};
use crate::model::{
    after, before, degree_sum, head, is_dart, lemma_next_prev, lemma_slot_back, prev, rings_valid,
    rows,
};
use crate::rings::{dart_count, is_rotation, lemma_degree_sum_grows, next_in, slot_in};

verus! {

/// Tells whether a vertex on this side stays.
pub(crate) fn stays(side: Side) -> (b: bool)
    ensures
        b == !(side is Outside),
{
    match side {
        Side::Outside => false,
        _ => true,
    }
}

/// Tells whether a vertex on this side lies off the plane on the kept side.
pub(crate) fn is_inner(side: Side) -> (b: bool)
    ensures
        b == (side is Inside),
{
    match side {
        Side::Inside => true,
        _ => false,
    }
}

/// The counts of kept vertices and of cut darts grow, and stay within the
/// numbers of vertices and of darts.
pub proof fn lemma_counts(a: Seq<Seq<usize>>, o: Seq<Side>, v: int)
    requires
        0 <= v <= a.len(),
    ensures
        0 <= kept_before(o, v) <= v,
        0 <= cuts_before(a, o, v) <= degree_sum(a, v),
    decreases v,
{
    if v > 0 {
        lemma_counts(a, o, v - 1);
        lemma_ring_counts(a, o, v - 1, a[v - 1].len() as int);
    }
}

/// The count of cut darts within a ring grows, and stays within the places
/// counted.
pub proof fn lemma_ring_counts(a: Seq<Seq<usize>>, o: Seq<Side>, v: int, k: int)
    requires
        0 <= k,
    ensures
        0 <= cuts_in_ring(a, o, v, k) <= k,
    decreases k,
{
    if k > 0 {
        lemma_ring_counts(a, o, v, k - 1);
    }
}

/// A valid graph has at least three darts for every vertex.
pub proof fn lemma_three_darts_each(a: Seq<Seq<usize>>, v: int)
    requires
        rings_valid(a),
        0 <= v <= a.len(),
    ensures
        3 * v <= degree_sum(a, v),
    decreases v,
{
    if v > 0 {
        lemma_three_darts_each(a, v - 1);
        assert(a[v - 1].len() >= 3);
    }
}

/// The dart that the dart `(v, k)` follows on its face.
pub(crate) fn prev_in(rings: &Vec<Vec<usize>>, v: usize, k: usize) -> (d: (usize, usize))
    requires
        is_rotation(rows(rings@)),
        is_dart(rows(rings@), (v as int, k as int)),
    ensures
        (d.0 as int, d.1 as int) == prev(rows(rings@), (v as int, k as int)),
        is_dart(rows(rings@), (d.0 as int, d.1 as int)),
{
    let ghost a = rows(rings@);
    let m = rings[v].len();
    assert(rings[v as int]@ == a[v as int]);
    let b = if k == 0 {
        m - 1
    } else {
        k - 1
    };
    assert(b == before(k as int, m as int));
    let u = rings[v][b];
    proof {
        assert(is_dart(a, (v as int, b as int)));
        lemma_slot_back(a, (v as int, b as int));
        lemma_next_prev(a, (v as int, k as int));
    }
    let j = slot_in(rings, u, v);
    (u, j)
}

/// Walks on from the dart `(v, k)` along its face to the first dart that
/// points at a kept vertex, for `fuel` steps at most.
pub(crate) fn walk_ahead(rings: &Vec<Vec<usize>>, sides: &Vec<Side>, v: usize, k: usize, fuel: usize) -> (e: (
    usize,
    usize,
))
    requires
        is_rotation(rows(rings@)),
        sides.len() == rings.len(),
        is_dart(rows(rings@), (v as int, k as int)),
    ensures
        (e.0 as int, e.1 as int) == enter(rows(rings@), sides@, (v as int, k as int), fuel as nat),
        is_dart(rows(rings@), (e.0 as int, e.1 as int)),
{
    let ghost a = rows(rings@);
    let ghost o = sides@;
    let mut cv = v;
    let mut ck = k;
    let mut left = fuel;
    loop
        invariant
            a == rows(rings@),
            o == sides@,
            is_rotation(a),
            sides.len() == rings.len(),
            is_dart(a, (cv as int, ck as int)),
            enter(a, o, (v as int, k as int), fuel as nat) == enter(a, o, (cv as int, ck as int), left as nat),
        decreases left,
    {
        assert(rings[cv as int]@ == a[cv as int]);
        let h = rings[cv][ck];
        assert(h == head(a, (cv as int, ck as int)));
        if stays(sides[h]) || left == 0 {
            return (cv, ck);
        }
        let d = next_in(rings, cv, ck);
        left = left - 1;
        cv = d.0;
        ck = d.1;
    }
}

/// Walks back from the dart `(v, k)` along its face to the first dart that
/// leaves a kept vertex, for `fuel` steps at most.
pub(crate) fn walk_back(rings: &Vec<Vec<usize>>, sides: &Vec<Side>, v: usize, k: usize, fuel: usize) -> (e: (
    usize,
    usize,
))
    requires
        is_rotation(rows(rings@)),
        sides.len() == rings.len(),
        is_dart(rows(rings@), (v as int, k as int)),
    ensures
        (e.0 as int, e.1 as int) == leave(rows(rings@), sides@, (v as int, k as int), fuel as nat),
        is_dart(rows(rings@), (e.0 as int, e.1 as int)),
{
    let ghost a = rows(rings@);
    let ghost o = sides@;
    let mut cv = v;
    let mut ck = k;
    let mut left = fuel;
    loop
        invariant
            a == rows(rings@),
            o == sides@,
            is_rotation(a),
            sides.len() == rings.len(),
            is_dart(a, (cv as int, ck as int)),
            leave(a, o, (v as int, k as int), fuel as nat) == leave(a, o, (cv as int, ck as int), left as nat),
        decreases left,
    {
        if stays(sides[cv]) || left == 0 {
            return (cv, ck);
        }
        let d = prev_in(rings, cv, ck);
        left = left - 1;
        cv = d.0;
        ck = d.1;
    }
}

/// The new numbers of the vertices that a cut leaves.
struct Numbering {
    /// For every vertex, how many vertices below it stay.
    kept: Vec<usize>,
    /// For every dart, the number that its new vertex gets if the dart is cut.
    cut: Vec<Vec<usize>>,
}

impl Numbering {
    /// The numbers are those of the graph `a` cut by the sides `o`.
    spec fn numbers(&self, a: Seq<Seq<usize>>, o: Seq<Side>) -> bool {
        &&& self.kept.len() == a.len()
        &&& forall|v: int| 0 <= v < a.len() ==> #[trigger] self.kept[v] == kept_before(o, v)
        &&& self.cut.len() == a.len()
        &&& forall|v: int| 0 <= v < a.len() ==> (#[trigger] self.cut[v]).len() == a[v].len()
        &&& forall|v: int, k: int|
            is_dart(a, (v, k)) ==> #[trigger] self.cut[v][k] == cut_index(a, o, (v, k))
    }
}

/// Numbers the vertices that a cut leaves: the kept ones in their old
/// order, then one new vertex for every cut dart, in the order of the darts.
fn number(rings: &Vec<Vec<usize>>, sides: &Vec<Side>) -> (t: Numbering)
    requires
        is_rotation(rows(rings@)),
        sides.len() == rings.len(),
    ensures
        t.numbers(rows(rings@), sides@),
{
    let ghost a = rows(rings@);
    let ghost o = sides@;
    let n = rings.len();
    let mut kept: Vec<usize> = Vec::new();
    let mut nk: usize = 0;
    let mut v: usize = 0;
    while v < n
        invariant
            n == rings.len(),
            sides.len() == n,
            o == sides@,
            v <= n,
            kept.len() == v,
            nk == kept_before(o, v as int),
            nk <= v,
            forall|x: int| 0 <= x < v ==> #[trigger] kept[x] == kept_before(o, x),
        decreases n - v,
    {
        kept.push(nk);
        if stays(sides[v]) {
            nk = nk + 1;
        }
        v += 1;
    }
    proof {
        lemma_three_darts_each(a, n as int);
    }
    let mut cut: Vec<Vec<usize>> = Vec::new();
    let mut nc: usize = nk;
    let mut v: usize = 0;
    while v < n
        invariant
            a == rows(rings@),
            o == sides@,
            is_rotation(a),
            n == rings.len(),
            sides.len() == n,
            v <= n,
            nk == kept_before(o, n as int),
            nk <= n,
            3 * n <= degree_sum(a, n as int),
            cut.len() == v,
            nc == nk + cuts_before(a, o, v as int),
            forall|x: int| 0 <= x < v ==> (#[trigger] cut[x]).len() == a[x].len(),
            forall|x: int, k: int|
                0 <= x < v && 0 <= k < a[x].len() ==> #[trigger] cut[x][k] == cut_index(a, o, (x, k)),
        decreases n - v,
    {
        let m = rings[v].len();
        assert(rings[v as int]@ == a[v as int]);
        let mut row: Vec<usize> = Vec::new();
        let mut k: usize = 0;
        proof {
            lemma_counts(a, o, v as int);
            lemma_degree_sum_grows(a, v as int + 1, n as int);
        }
        while k < m
            invariant
                a == rows(rings@),
                o == sides@,
                is_rotation(a),
                n == rings.len(),
                sides.len() == n,
                v < n,
                m == a[v as int].len(),
                k <= m,
                nk == kept_before(o, n as int),
                nk <= n,
                3 * n <= degree_sum(a, n as int),
                cuts_before(a, o, v as int) <= degree_sum(a, v as int),
                degree_sum(a, v as int) + m <= degree_sum(a, n as int),
                row.len() == k,
                nc == nk + cuts_before(a, o, v as int) + cuts_in_ring(a, o, v as int, k as int),
                forall|j: int| 0 <= j < k ==> #[trigger] row[j] == cut_index(a, o, (v as int, j)),
            decreases m - k,
        {
            proof {
                lemma_ring_counts(a, o, v as int, k as int);
            }
            row.push(nc);
            let w = rings[v][k];
            assert(w == head(a, (v as int, k as int)));
            assert(is_dart(a, (v as int, k as int)));
            if is_inner(sides[v]) && !stays(sides[w]) {
                nc = nc + 1;
            }
            k += 1;
        }
        cut.push(row);
        v += 1;
    }
    Numbering { kept, cut }
}

/// A vertex of the cut as the walks find it: the vertex, and the place of
/// the cut dart where the vertex is a new one.
pub open spec fn gate_of(g: (usize, Option<usize>)) -> (int, int) {
    (
        g.0 as int,
        match g.1 {
            Some(j) => j as int,
            None => -1int,
        },
    )
}

/// The vertex of the cut ahead of the dart `(v, k)` on its face.
pub(crate) fn find_gate_ahead(rings: &Vec<Vec<usize>>, sides: &Vec<Side>, v: usize, k: usize, fuel: usize) -> (g: (
    usize,
    Option<usize>,
))
    requires
        is_rotation(rows(rings@)),
        sides.len() == rings.len(),
        is_dart(rows(rings@), (v as int, k as int)),
        fuel == degree_sum(rows(rings@), rings.len() as int),
    ensures
        gate_of(g) == gate_ahead(rows(rings@), sides@, (v as int, k as int)),
        g.0 < rings.len(),
        g.1 matches Some(j) ==> is_dart(rows(rings@), (g.0 as int, j as int)),
{
    let ghost a = rows(rings@);
    let e = walk_ahead(rings, sides, v, k, fuel);
    assert(rings[e.0 as int]@ == a[e.0 as int]);
    let y = rings[e.0][e.1];
    proof {
        lemma_slot_back(a, (e.0 as int, e.1 as int));
    }
    if is_inner(sides[y]) {
        let j = slot_in(rings, y, e.0);
        (y, Some(j))
    } else {
        (y, None)
    }
}

/// The vertex of the cut behind the dart `(v, k)`, on the face across its edge.
pub(crate) fn find_gate_behind(rings: &Vec<Vec<usize>>, sides: &Vec<Side>, v: usize, k: usize, fuel: usize) -> (g: (
    usize,
    Option<usize>,
))
    requires
        is_rotation(rows(rings@)),
        sides.len() == rings.len(),
        is_dart(rows(rings@), (v as int, k as int)),
        fuel == degree_sum(rows(rings@), rings.len() as int),
    ensures
        gate_of(g) == gate_behind(rows(rings@), sides@, (v as int, k as int)),
        g.0 < rings.len(),
        g.1 matches Some(j) ==> is_dart(rows(rings@), (g.0 as int, j as int)),
{
    let ghost a = rows(rings@);
    assert(rings[v as int]@ == a[v as int]);
    let w = rings[v][k];
    proof {
        lemma_slot_back(a, (v as int, k as int));
    }
    let j = slot_in(rings, w, v);
    let e = walk_back(rings, sides, w, j, fuel);
    if is_inner(sides[e.0]) {
        (e.0, Some(e.1))
    } else {
        (e.0, None)
    }
}

/// The new number of a vertex of the cut.
fn gate_number(t: &Numbering, g: (usize, Option<usize>), Ghost(a): Ghost<Seq<Seq<usize>>>, Ghost(o): Ghost<Seq<Side>>) -> (i: usize)
    requires
        t.numbers(a, o),
        g.0 < a.len(),
        g.1 matches Some(j) ==> is_dart(a, (g.0 as int, j as int)),
    ensures
        i == gate_index(a, o, gate_of(g)),
{
    match g.1 {
        Some(j) => t.cut[g.0][j],
        None => t.kept[g.0],
    }
}

/// The new ring of the kept vertex `v`.
fn clip_kept_ring(rings: &Vec<Vec<usize>>, sides: &Vec<Side>, t: &Numbering, v: usize, fuel: usize) -> (ring: Vec<usize>)
    requires
        is_rotation(rows(rings@)),
        sides.len() == rings.len(),
        t.numbers(rows(rings@), sides@),
        v < rings.len(),
        fuel == degree_sum(rows(rings@), rings.len() as int),
    ensures
        ring@ == kept_ring(rows(rings@), sides@, v as int, rows(rings@)[v as int].len() as int),
{
    let ghost a = rows(rings@);
    let ghost o = sides@;
    let m = rings[v].len();
    assert(rings[v as int]@ == a[v as int]);
    let mut ring: Vec<usize> = Vec::new();
    let mut k: usize = 0;
    while k < m
        invariant
            a == rows(rings@),
            o == sides@,
            is_rotation(a),
            sides.len() == rings.len(),
            t.numbers(a, o),
            v < rings.len(),
            fuel == degree_sum(a, rings.len() as int),
            m == a[v as int].len(),
            k <= m,
            ring@ == kept_ring(a, o, v as int, k as int),
        decreases m - k,
    {
        let ghost d = (v as int, k as int);
        let ghost sofar = ring@;
        assert(rings[v as int]@ == a[v as int]);
        let w = rings[v][k];
        assert(w == head(a, d));
        assert(is_dart(a, d));
        if stays(sides[w]) {
            ring.push(t.kept[w]);
            assert(ring@ =~= sofar + piece(a, o, d));
        } else if is_inner(sides[v]) {
            ring.push(t.cut[v][k]);
            assert(ring@ =~= sofar + piece(a, o, d));
        } else {
            let p = rings[v][if k == 0 {
                m - 1
            } else {
                k - 1
            }];
            let q = rings[v][if k + 1 < m {
                k + 1
            } else {
                0
            }];
            assert(p == a[d.0][before(d.1, a[d.0].len() as int)]);
            assert(q == a[d.0][after(d.1, a[d.0].len() as int)]);
            let g = find_gate_ahead(rings, sides, v, k, fuel);
            if !(g.1.is_none() && (g.0 == v || g.0 == p)) {
                assert(corner_ahead(a, o, d));
                ring.push(gate_number(t, g, Ghost(a), Ghost(o)));
            } else {
                assert(!corner_ahead(a, o, d));
            }
            let ghost half = ring@;
            let h = find_gate_behind(rings, sides, v, k, fuel);
            if !(h.1.is_none() && (h.0 == v || h.0 == q)) {
                assert(corner_behind(a, o, d));
                ring.push(gate_number(t, h, Ghost(a), Ghost(o)));
            } else {
                assert(!corner_behind(a, o, d));
            }
            assert(ring@ =~= sofar + piece(a, o, d));
        }
        k += 1;
    }
    ring
}

/// The ring of the new vertex on the cut dart `(v, k)`.
fn clip_cut_ring(rings: &Vec<Vec<usize>>, sides: &Vec<Side>, t: &Numbering, v: usize, k: usize, fuel: usize) -> (ring: Vec<usize>)
    requires
        is_rotation(rows(rings@)),
        sides.len() == rings.len(),
        t.numbers(rows(rings@), sides@),
        is_dart(rows(rings@), (v as int, k as int)),
        fuel == degree_sum(rows(rings@), rings.len() as int),
    ensures
        ring@ == cut_ring(rows(rings@), sides@, (v as int, k as int)),
{
    let ghost a = rows(rings@);
    let ghost o = sides@;
    let g = find_gate_ahead(rings, sides, v, k, fuel);
    let h = find_gate_behind(rings, sides, v, k, fuel);
    let mut ring: Vec<usize> = Vec::new();
    ring.push(t.kept[v]);
    ring.push(gate_number(t, g, Ghost(a), Ghost(o)));
    ring.push(gate_number(t, h, Ghost(a), Ghost(o)));
    assert(ring@ =~= cut_ring(a, o, (v as int, k as int)));
    ring
}

/// The rings that a cut leaves, given the side of every vertex.
pub fn clip_rings(rings: &Vec<Vec<usize>>, sides: &Vec<Side>) -> (out: Vec<Vec<usize>>)
    requires
        is_rotation(rows(rings@)),
        sides.len() == rings.len(),
    ensures
        rows(out@) == clipped_rings(rows(rings@), sides@),
{
    let ghost a = rows(rings@);
    let ghost o = sides@;
    let n = rings.len();
    let fuel = dart_count(rings);
    let t = number(rings, sides);
    let mut out: Vec<Vec<usize>> = Vec::new();
    let mut v: usize = 0;
    assert(rows(out@) =~= kept_rings(a, o, 0));
    while v < n
        invariant
            a == rows(rings@),
            o == sides@,
            is_rotation(a),
            n == rings.len(),
            sides.len() == n,
            t.numbers(a, o),
            fuel == degree_sum(a, n as int),
            v <= n,
            rows(out@) == kept_rings(a, o, v as int),
        decreases n - v,
    {
        if stays(sides[v]) {
            let ghost sofar = rows(out@);
            let ring = clip_kept_ring(rings, sides, &t, v, fuel);
            out.push(ring);
            assert(rows(out@) =~= sofar.push(kept_ring(a, o, v as int, a[v as int].len() as int)));
        }
        v += 1;
    }
    let ghost first = rows(out@);
    let mut v: usize = 0;
    assert(rows(out@) =~= first + cut_rings(a, o, 0));
    while v < n
        invariant
            a == rows(rings@),
            o == sides@,
            is_rotation(a),
            n == rings.len(),
            sides.len() == n,
            t.numbers(a, o),
            fuel == degree_sum(a, n as int),
            v <= n,
            first == kept_rings(a, o, n as int),
            rows(out@) == first + cut_rings(a, o, v as int),
        decreases n - v,
    {
        let m = rings[v].len();
        assert(rings[v as int]@ == a[v as int]);
        let ghost base = cut_rings(a, o, v as int);
        let mut k: usize = 0;
        assert(rows(out@) =~= first + (base + cut_rings_in_ring(a, o, v as int, 0)));
        while k < m
            invariant
                a == rows(rings@),
                o == sides@,
                is_rotation(a),
                n == rings.len(),
                sides.len() == n,
                t.numbers(a, o),
                fuel == degree_sum(a, n as int),
                v < n,
                m == a[v as int].len(),
                k <= m,
                base == cut_rings(a, o, v as int),
                rows(out@) == first + (base + cut_rings_in_ring(a, o, v as int, k as int)),
            decreases m - k,
        {
            assert(rings[v as int]@ == a[v as int]);
            let w = rings[v][k];
            assert(w == head(a, (v as int, k as int)));
            if is_inner(sides[v]) && !stays(sides[w]) {
                let ghost sofar = rows(out@);
                let ring = clip_cut_ring(rings, sides, &t, v, k, fuel);
                out.push(ring);
                assert(rows(out@) =~= sofar.push(cut_ring(a, o, (v as int, k as int))));
                assert(rows(out@) =~= first + (base + cut_rings_in_ring(a, o, v as int, k as int + 1)));
            }
            k += 1;
        }
        assert(rows(out@) =~= first + cut_rings(a, o, v as int + 1));
        v += 1;
    }
    out
}

/// For every vertex that a cut leaves, where it comes from: a kept vertex
/// `v` gives `(v, v)`, the new vertex on a cut edge gives the ends of the
/// edge, the inner one first.
pub fn clip_origins(rings: &Vec<Vec<usize>>, sides: &Vec<Side>) -> (out: Vec<(usize, usize)>)
    requires
        is_rotation(rows(rings@)),
        sides.len() == rings.len(),
    ensures
        out@ == clipped_origins(rows(rings@), sides@),
{
    let ghost a = rows(rings@);
    let ghost o = sides@;
    let n = rings.len();
    let mut out: Vec<(usize, usize)> = Vec::new();
    let mut v: usize = 0;
    while v < n
        invariant
            o == sides@,
            n == rings.len(),
            sides.len() == n,
            v <= n,
            out@ == kept_origins(o, v as int),
        decreases n - v,
    {
        if stays(sides[v]) {
            out.push((v, v));
        }
        v += 1;
    }
    let ghost first = out@;
    let mut v: usize = 0;
    assert(out@ =~= first + cut_origins(a, o, 0));
    while v < n
        invariant
            a == rows(rings@),
            o == sides@,
            is_rotation(a),
            n == rings.len(),
            sides.len() == n,
            v <= n,
            first == kept_origins(o, n as int),
            out@ == first + cut_origins(a, o, v as int),
        decreases n - v,
    {
        let m = rings[v].len();
        assert(rings[v as int]@ == a[v as int]);
        let ghost base = cut_origins(a, o, v as int);
        let mut k: usize = 0;
        assert(out@ =~= first + (base + cut_origins_in_ring(a, o, v as int, 0)));
        while k < m
            invariant
                a == rows(rings@),
                o == sides@,
                is_rotation(a),
                n == rings.len(),
                sides.len() == n,
                v < n,
                m == a[v as int].len(),
                k <= m,
                base == cut_origins(a, o, v as int),
                out@ == first + (base + cut_origins_in_ring(a, o, v as int, k as int)),
            decreases m - k,
        {
            assert(rings[v as int]@ == a[v as int]);
            let w = rings[v][k];
            assert(w == head(a, (v as int, k as int)));
            assert(is_dart(a, (v as int, k as int)));
            if is_inner(sides[v]) && !stays(sides[w]) {
                let ghost sofar = out@;
                out.push((v, w));
                assert(out@ =~= first + (base + cut_origins_in_ring(a, o, v as int, k as int + 1)));
            }
            k += 1;
        }
        assert(out@ =~= first + cut_origins(a, o, v as int + 1));
        v += 1;
    }
    out
}

/// The labels along the new ring of the kept vertex `v`.
fn clip_kept_labels(
    rings: &Vec<Vec<usize>>,
    labels: &Vec<Vec<i32>>,
    sides: &Vec<Side>,
    id: i32,
    v: usize,
    fuel: usize,
) -> (row: Vec<i32>)
    requires
        is_rotation(rows(rings@)),
        labels_shaped(rows(rings@), rows(labels@)),
        sides.len() == rings.len(),
        v < rings.len(),
        fuel == degree_sum(rows(rings@), rings.len() as int),
    ensures
        row@ == kept_labels(
            rows(rings@),
            rows(labels@),
            sides@,
            id,
            v as int,
            rows(rings@)[v as int].len() as int,
        ),
{
    let ghost a = rows(rings@);
    let ghost l = rows(labels@);
    let ghost o = sides@;
    let m = rings[v].len();
    assert(rings[v as int]@ == a[v as int]);
    let mut row: Vec<i32> = Vec::new();
    let mut k: usize = 0;
    while k < m
        invariant
            a == rows(rings@),
            l == rows(labels@),
            o == sides@,
            is_rotation(a),
            labels_shaped(a, l),
            sides.len() == rings.len(),
            v < rings.len(),
            fuel == degree_sum(a, rings.len() as int),
            m == a[v as int].len(),
            k <= m,
            row@ == kept_labels(a, l, o, id, v as int, k as int),
        decreases m - k,
    {
        let ghost d = (v as int, k as int);
        let ghost sofar = row@;
        assert(rings[v as int]@ == a[v as int]);
        assert(labels[v as int]@ == l[v as int]);
        assert(l[v as int].len() == a[v as int].len());
        let w = rings[v][k];
        let mine = labels[v][k];
        assert(w == head(a, d));
        assert(is_dart(a, d));
        if stays(sides[w]) {
            let e = next_in(rings, v, k);
            assert(rings[e.0 as int]@ == a[e.0 as int]);
            let s = rings[e.0][e.1];
            let mut gone = false;
            if !is_inner(sides[e.0]) && !stays(sides[s]) {
                let g = find_gate_ahead(rings, sides, e.0, e.1, fuel);
                gone = g.1.is_none() && g.0 == v;
            }
            assert(gone == face_gone(a, o, d));
            row.push(if gone {
                id
            } else {
                mine
            });
            assert(row@ =~= sofar + piece_labels(a, l, o, id, d));
        } else if is_inner(sides[v]) {
            row.push(mine);
            assert(row@ =~= sofar + piece_labels(a, l, o, id, d));
        } else {
            let p = rings[v][if k == 0 {
                m - 1
            } else {
                k - 1
            }];
            let q = rings[v][if k + 1 < m {
                k + 1
            } else {
                0
            }];
            assert(p == a[d.0][before(d.1, a[d.0].len() as int)]);
            assert(q == a[d.0][after(d.1, a[d.0].len() as int)]);
            let g = find_gate_ahead(rings, sides, v, k, fuel);
            if !(g.1.is_none() && (g.0 == v || g.0 == p)) {
                assert(corner_ahead(a, o, d));
                row.push(mine);
            } else {
                assert(!corner_ahead(a, o, d));
            }
            let h = find_gate_behind(rings, sides, v, k, fuel);
            if !(h.1.is_none() && (h.0 == v || h.0 == q)) {
                assert(corner_behind(a, o, d));
                row.push(id);
            } else {
                assert(!corner_behind(a, o, d));
            }
            assert(row@ =~= sofar + piece_labels(a, l, o, id, d));
        }
        k += 1;
    }
    row
}

/// The labels of the darts that a cut leaves, where the darts of the new
/// face get the label `id`.
pub fn clip_labels(rings: &Vec<Vec<usize>>, labels: &Vec<Vec<i32>>, sides: &Vec<Side>, id: i32) -> (out: Vec<Vec<i32>>)
    requires
        is_rotation(rows(rings@)),
        labels_shaped(rows(rings@), rows(labels@)),
        sides.len() == rings.len(),
    ensures
        rows(out@) == clipped_labels(rows(rings@), rows(labels@), sides@, id),
{
    let ghost a = rows(rings@);
    let ghost l = rows(labels@);
    let ghost o = sides@;
    let n = rings.len();
    let fuel = dart_count(rings);
    let mut out: Vec<Vec<i32>> = Vec::new();
    let mut v: usize = 0;
    assert(rows(out@) =~= kept_label_rows(a, l, o, id, 0));
    while v < n
        invariant
            a == rows(rings@),
            l == rows(labels@),
            o == sides@,
            is_rotation(a),
            labels_shaped(a, l),
            n == rings.len(),
            sides.len() == n,
            fuel == degree_sum(a, n as int),
            v <= n,
            rows(out@) == kept_label_rows(a, l, o, id, v as int),
        decreases n - v,
    {
        if stays(sides[v]) {
            let ghost sofar = rows(out@);
            let row = clip_kept_labels(rings, labels, sides, id, v, fuel);
            out.push(row);
            assert(rows(out@) =~= sofar.push(kept_labels(a, l, o, id, v as int, a[v as int].len() as int)));
        }
        v += 1;
    }
    let ghost first = rows(out@);
    let mut v: usize = 0;
    assert(rows(out@) =~= first + cut_label_rows(a, l, o, id, 0));
    while v < n
        invariant
            a == rows(rings@),
            l == rows(labels@),
            o == sides@,
            is_rotation(a),
            labels_shaped(a, l),
            n == rings.len(),
            sides.len() == n,
            v <= n,
            first == kept_label_rows(a, l, o, id, n as int),
            rows(out@) == first + cut_label_rows(a, l, o, id, v as int),
        decreases n - v,
    {
        let m = rings[v].len();
        assert(rings[v as int]@ == a[v as int]);
        let ghost base = cut_label_rows(a, l, o, id, v as int);
        let mut k: usize = 0;
        assert(rows(out@) =~= first + (base + cut_label_rows_in_ring(a, l, o, id, v as int, 0)));
        while k < m
            invariant
                a == rows(rings@),
                l == rows(labels@),
                o == sides@,
                is_rotation(a),
                labels_shaped(a, l),
                n == rings.len(),
                sides.len() == n,
                v < n,
                m == a[v as int].len(),
                k <= m,
                base == cut_label_rows(a, l, o, id, v as int),
                rows(out@) == first + (base + cut_label_rows_in_ring(a, l, o, id, v as int, k as int)),
            decreases m - k,
        {
            let ghost d = (v as int, k as int);
            assert(rings[v as int]@ == a[v as int]);
            assert(labels[v as int]@ == l[v as int]);
            assert(l[v as int].len() == a[v as int].len());
            let w = rings[v][k];
            assert(w == head(a, d));
            assert(is_dart(a, d));
            if is_inner(sides[v]) && !stays(sides[w]) {
                let ghost sofar = rows(out@);
                proof {
                    lemma_slot_back(a, d);
                }
                let j = slot_in(rings, w, v);
                assert(labels[w as int]@ == l[w as int]);
                assert(l[w as int].len() == a[w as int].len());
                let mut row: Vec<i32> = Vec::new();
                row.push(labels[w][j]);
                row.push(labels[v][k]);
                row.push(id);
                assert(row@ =~= cut_labels(a, l, id, d));
                out.push(row);
                assert(rows(out@) =~= sofar.push(cut_labels(a, l, id, d)));
                assert(rows(out@) =~= first + (base + cut_label_rows_in_ring(a, l, o, id, v as int, k as int + 1)));
            }
            k += 1;
        }
        assert(rows(out@) =~= first + cut_label_rows(a, l, o, id, v as int + 1));
        v += 1;
    }
    out
}

/// Tells whether some vertex lies beyond the plane.
pub(crate) fn has_outside(sides: &Vec<Side>) -> (b: bool)
    ensures
        b == any_outside(sides@),
{
    let mut v: usize = 0;
    while v < sides.len()
        invariant
            v <= sides.len(),
            forall|x: int| 0 <= x < v ==> !(#[trigger] sides@[x] is Outside),
        decreases sides.len() - v,
    {
        if !stays(sides[v]) {
            return true;
        }
        v += 1;
    }
    false
}

/// Tells whether some vertex lies off the plane on the kept side.
pub(crate) fn has_inside(sides: &Vec<Side>) -> (b: bool)
    ensures
        b == any_inside(sides@),
{
    let mut v: usize = 0;
    while v < sides.len()
        invariant
            v <= sides.len(),
            forall|x: int| 0 <= x < v ==> !(#[trigger] sides@[x] is Inside),
        decreases sides.len() - v,
    {
        if is_inner(sides[v]) {
            return true;
        }
        v += 1;
    }
    false
}

/// A copy of a table, row for row.
pub(crate) fn copy_rows<T: Copy>(table: &Vec<Vec<T>>) -> (out: Vec<Vec<T>>)
    ensures
        rows(out@) == rows(table@),
{
    let mut out: Vec<Vec<T>> = Vec::new();
    let mut v: usize = 0;
    while v < table.len()
        invariant
            v <= table.len(),
            out.len() == v,
            forall|x: int| 0 <= x < v ==> (#[trigger] out[x])@ == table[x]@,
        decreases table.len() - v,
    {
        let row = &table[v];
        let mut copy: Vec<T> = Vec::new();
        let mut k: usize = 0;
        while k < row.len()
            invariant
                k <= row.len(),
                copy.len() == k,
                forall|j: int| 0 <= j < k ==> copy[j] == row[j],
            decreases row.len() - k,
        {
            copy.push(row[k]);
            k += 1;
        }
        assert(copy@ =~= row@);
        out.push(copy);
        v += 1;
    }
    assert(rows(out@) =~= rows(table@));
    out
}

} // verus!
