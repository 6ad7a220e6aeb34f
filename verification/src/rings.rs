//! Work on the rings of a graph: finding a neighbour, stepping along a
//! face, and telling whether a table of rings is a graph at all.
use vstd::prelude::*;
use crate::model::{
    after, degree_sum, head, is_dart, lemma_slot, lemma_slot_back, next, rings_valid, rows, slot,
};

verus! {

/// The most darts that a cell may hold; with it every count fits in `i32`.
pub const MAX_DARTS: usize = 0x7fff_ffff;

/// The rings are those of a graph that can be held: a valid graph with at
/// least one vertex and no more than `MAX_DARTS` darts.
pub open spec fn is_rotation(a: Seq<Seq<usize>>) -> bool {
    &&& a.len() > 0
    &&& rings_valid(a)
    &&& degree_sum(a, a.len() as int) <= MAX_DARTS
}

/// Tells whether `x` stands in the ring.
pub(crate) fn ring_contains(ring: &Vec<usize>, x: usize) -> (found: bool)
    ensures
        found == ring@.contains(x),
{
    let mut k: usize = 0;
    while k < ring.len()
        invariant
            k <= ring.len(),
            forall|j: int| 0 <= j < k ==> ring@[j] != x,
        decreases ring.len() - k,
    {
        if ring[k] == x {
            return true;
        }
        k += 1;
    }
    false
}

/// The degree sum grows with the number of rings counted.
pub proof fn lemma_degree_sum_grows(a: Seq<Seq<usize>>, m: int, n: int)
    requires
        0 <= m <= n,
    ensures
        0 <= degree_sum(a, m) <= degree_sum(a, n),
    decreases n,
{
    if m < n {
        lemma_degree_sum_grows(a, m, n - 1);
    } else if n > 0 {
        lemma_degree_sum_grows(a, m - 1, n - 1);
    }
}

/// Tells whether the rings are those of a graph that can be held.
pub fn rings_are_rotation(rings: &Vec<Vec<usize>>) -> (ok: bool)
    ensures
        ok == is_rotation(rows(rings@)),
{
    let ghost a = rows(rings@);
    let n = rings.len();
    if n == 0 {
        return false;
    }
    let mut total: usize = 0;
    let mut v: usize = 0;
    while v < n
        invariant
            n == rings.len(),
            a == rows(rings@),
            v <= n,
            total == degree_sum(a, v as int),
            total <= MAX_DARTS,
            forall|u: int, k: int|
                #![trigger a[u][k]]
                0 <= u < v && 0 <= k < a[u].len() ==> a[u][k] < a.len() && a[u][k] != u && a[a[u][k] as int].contains(
                    u as usize,
                ),
            forall|u: int, j: int, k: int|
                #![trigger a[u][j], a[u][k]]
                0 <= u < v && 0 <= j < a[u].len() && 0 <= k < a[u].len() && j != k ==> a[u][j]
                    != a[u][k],
            forall|u: int| 0 <= u < v ==> (#[trigger] a[u]).len() >= 3,
        decreases n - v,
    {
        let ring = &rings[v];
        let m = ring.len();
        assert(ring@ == a[v as int]);
        if m < 3 {
            return false;
        }
        if m > MAX_DARTS - total {
            proof {
                lemma_degree_sum_grows(a, v as int + 1, n as int);
            }
            return false;
        }
        let mut k: usize = 0;
        while k < m
            invariant
                n == rings.len(),
                a == rows(rings@),
                v < n,
                ring@ == a[v as int],
                m == ring.len(),
                k <= m,
                forall|i: int|
                    #![trigger a[v as int][i]]
                    0 <= i < k ==> a[v as int][i] < a.len() && a[v as int][i] != v && a[a[v as int][i] as int].contains(
                        v,
                    ),
                forall|i: int, j: int|
                    #![trigger a[v as int][i], a[v as int][j]]
                    0 <= i < j < k ==> a[v as int][i] != a[v as int][j],
            decreases m - k,
        {
            let w = ring[k];
            if w >= n || w == v {
                assert(is_dart(a, (v as int, k as int)));
                return false;
            }
            assert(rings[w as int]@ == a[w as int]);
            if !ring_contains(&rings[w], v) {
                assert(is_dart(a, (v as int, k as int)));
                return false;
            }
            let mut j: usize = 0;
            while j < k
                invariant
                    n == rings.len(),
                    a == rows(rings@),
                    v < n,
                    ring@ == a[v as int],
                    m == ring.len(),
                    k < m,
                    j <= k,
                    w == ring@[k as int],
                    forall|i: int| 0 <= i < j ==> a[v as int][i] != w,
                decreases k - j,
            {
                if ring[j] == w {
                    assert(is_dart(a, (v as int, j as int)) && is_dart(a, (v as int, k as int)));
                    assert(a[v as int][j as int] == a[v as int][k as int]);
                    return false;
                }
                j += 1;
            }
            k += 1;
        }
        total = total + m;
        v += 1;
    }
    true
}

/// The total number of darts.
pub(crate) fn dart_count(rings: &Vec<Vec<usize>>) -> (total: usize)
    requires
        is_rotation(rows(rings@)),
    ensures
        total == degree_sum(rows(rings@), rings.len() as int),
        total <= MAX_DARTS,
{
    let ghost a = rows(rings@);
    let n = rings.len();
    let mut total: usize = 0;
    let mut v: usize = 0;
    while v < n
        invariant
            n == rings.len(),
            a == rows(rings@),
            v <= n,
            total == degree_sum(a, v as int),
            degree_sum(a, n as int) <= MAX_DARTS,
        decreases n - v,
    {
        proof {
            lemma_degree_sum_grows(a, v as int + 1, n as int);
        }
        total = total + rings[v].len();
        v += 1;
    }
    total
}

/// The place of `v` in the ring of its neighbour `w`.
pub(crate) fn slot_in(rings: &Vec<Vec<usize>>, w: usize, v: usize) -> (j: usize)
    requires
        is_rotation(rows(rings@)),
        w < rings.len(),
        rows(rings@)[w as int].contains(v),
    ensures
        j == slot(rows(rings@), w as int, v as int),
        j < rows(rings@)[w as int].len(),
        rows(rings@)[w as int][j as int] == v,
{
    let ghost a = rows(rings@);
    let ring = &rings[w];
    let mut j: usize = 0;
    while ring[j] != v
        invariant
            ring@ == a[w as int],
            ring@.contains(v),
            j < ring.len(),
            forall|i: int| 0 <= i < j ==> ring@[i] != v,
        decreases ring.len() - j,
    {
        j += 1;
        assert(j < ring.len()) by {
            let i = ring@.index_of(v);
            assert(0 <= i < ring.len() && ring@[i] == v);
        }
    }
    proof {
        assert(is_dart(a, (w as int, j as int)));
        lemma_slot(a, w as int, j as int);
    }
    j
}

/// The dart that follows the dart `(v, k)` on its face.
pub(crate) fn next_in(rings: &Vec<Vec<usize>>, v: usize, k: usize) -> (d: (usize, usize))
    requires
        is_rotation(rows(rings@)),
        is_dart(rows(rings@), (v as int, k as int)),
    ensures
        (d.0 as int, d.1 as int) == next(rows(rings@), (v as int, k as int)),
        is_dart(rows(rings@), (d.0 as int, d.1 as int)),
{
    let ghost a = rows(rings@);
    let w = rings[v][k];
    proof {
        lemma_slot_back(a, (v as int, k as int));
        assert(a[v as int][k as int] == w);
        assert(head(a, (v as int, k as int)) == w);
    }
    let j = slot_in(rings, w, v);
    let m = rings[w].len();
    let j2 = if j + 1 < m {
        j + 1
    } else {
        0
    };
    assert(j2 == after(j as int, m as int));
    (w, j2)
}

} // verus!
