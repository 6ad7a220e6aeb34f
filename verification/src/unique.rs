//! A graph has one face listing.
use vstd::prelude::*;
use crate::model::{
    dart_lt, face_listed, first_dart, in_order, is_dart, is_face_from, is_face_listing,
    lemma_orbit_add, on_a_face, on_face, orbit,
};

verus! {

/// On a face of `m` darts every step count can be brought below `m`.
proof fn lemma_orbit_reduce(a: Seq<Seq<usize>>, s: (int, int), m: nat, k: nat) -> (r: nat)
    requires
        m > 0,
        orbit(a, s, m) == s,
    ensures
        r < m,
        orbit(a, s, k) == orbit(a, s, r),
    decreases k,
{
    if k < m {
        k
    } else {
        lemma_orbit_add(a, s, m, (k - m) as nat);
        lemma_orbit_reduce(a, s, m, (k - m) as nat)
    }
}

/// A face has one least dart: if the least dart of one face lies on another
/// face, it is the least dart of that face too.
proof fn lemma_one_least_dart(
    a: Seq<Seq<usize>>,
    s1: (int, int),
    f1: Seq<usize>,
    s2: (int, int),
    f2: Seq<usize>,
)
    requires
        is_face_from(a, s1, f1),
        is_face_from(a, s2, f2),
        on_face(a, s1, f1.len(), s2),
    ensures
        s1 == s2,
{
    let m1 = f1.len();
    let m2 = f2.len();
    let i = choose|i: nat| i < m1 && #[trigger] orbit(a, s1, i) == s2;
    if i != 0 {
        assert(dart_lt(s1, s2));
        lemma_orbit_add(a, s1, i, (m1 - i) as nat);
        assert(orbit(a, s2, (m1 - i) as nat) == s1);
        let r = lemma_orbit_reduce(a, s2, m2, (m1 - i) as nat);
        if r != 0 {
            assert(dart_lt(s2, orbit(a, s2, r)));
        }
        assert(false);
    }
}

/// The face through a dart is one list of vertices.
proof fn lemma_one_face(a: Seq<Seq<usize>>, s: (int, int), f: Seq<usize>, g: Seq<usize>)
    requires
        is_face_from(a, s, f),
        is_face_from(a, s, g),
    ensures
        f == g,
{
    if f.len() < g.len() {
        assert(dart_lt(s, orbit(a, s, f.len())));
    }
    if g.len() < f.len() {
        assert(dart_lt(s, orbit(a, s, g.len())));
    }
    assert forall|i: int| 0 <= i < f.len() implies f[i] == g[i] by {
        assert(f[i] == orbit(a, s, i as nat).0);
        assert(g[i] == orbit(a, s, i as nat).0);
    }
    assert(f =~= g);
}

/// The first dart of face `j` of one listing is the first dart of some face
/// of the other listing.
proof fn lemma_start_is_start(a: Seq<Seq<usize>>, x: Seq<Seq<usize>>, y: Seq<Seq<usize>>, j: int) -> (j2: int)
    requires
        is_face_listing(a, x),
        is_face_listing(a, y),
        0 <= j < x.len(),
    ensures
        0 <= j2 < y.len(),
        first_dart(a, y[j2]) == first_dart(a, x[j]),
{
    let sx = first_dart(a, x[j]);
    assert(face_listed(a, x, j));
    assert(is_dart(a, sx));
    assert(on_a_face(a, y, sx));
    let j2 = choose|j2: int| 0 <= j2 < y.len() && #[trigger] on_face(a, first_dart(a, y[j2]), y[j2].len(), sx);
    assert(face_listed(a, y, j2));
    lemma_one_least_dart(a, first_dart(a, y[j2]), y[j2], sx, x[j]);
    j2
}

/// Two listings of the faces of a graph agree on their first `n` faces.
proof fn lemma_listings_agree(a: Seq<Seq<usize>>, x: Seq<Seq<usize>>, y: Seq<Seq<usize>>, n: int)
    requires
        is_face_listing(a, x),
        is_face_listing(a, y),
        0 <= n <= x.len(),
        n <= y.len(),
    ensures
        forall|j: int| 0 <= j < n ==> x[j] == y[j],
    decreases n,
{
    if n > 0 {
        lemma_listings_agree(a, x, y, n - 1);
        let j = n - 1;
        let sx = first_dart(a, x[j]);
        let sy = first_dart(a, y[j]);
        let jy = lemma_start_is_start(a, x, y, j);
        let jx = lemma_start_is_start(a, y, x, j);
        if jy < j {
            assert(x[jy] == y[jy]);
            assert(in_order(a, x, jy, j));
            assert(false);
        }
        if jx < j {
            assert(x[jx] == y[jx]);
            assert(in_order(a, y, jx, j));
            assert(false);
        }
        if jy > j {
            assert(in_order(a, y, j, jy));
        }
        if jx > j {
            assert(in_order(a, x, j, jx));
        }
        assert(sx == sy);
        assert(face_listed(a, x, j));
        assert(face_listed(a, y, j));
        lemma_one_face(a, sx, x[j], y[j]);
    }
}

/// A graph has one face listing.
pub proof fn lemma_face_listing_unique(a: Seq<Seq<usize>>, x: Seq<Seq<usize>>, y: Seq<Seq<usize>>)
    requires
        is_face_listing(a, x),
        is_face_listing(a, y),
    ensures
        x == y,
{
    if x.len() < y.len() {
        lemma_listings_agree(a, x, y, x.len() as int);
        let j = x.len() as int;
        let jx = lemma_start_is_start(a, y, x, j);
        assert(x[jx] == y[jx]);
        assert(in_order(a, y, jx, j));
        assert(false);
    }
    if y.len() < x.len() {
        lemma_listings_agree(a, x, y, y.len() as int);
        let j = y.len() as int;
        let jy = lemma_start_is_start(a, x, y, j);
        assert(x[jy] == y[jy]);
        assert(in_order(a, x, jy, j));
        assert(false);
    }
    lemma_listings_agree(a, x, y, x.len() as int);
    assert(x =~= y);
}

/// The faces of a graph: its one face listing.
pub open spec fn faces_of(a: Seq<Seq<usize>>) -> Seq<Seq<usize>> {
    choose|fs: Seq<Seq<usize>>| is_face_listing(a, fs)
}

/// Whatever lists the faces of a graph is its face listing.
pub proof fn lemma_faces_of(a: Seq<Seq<usize>>, fs: Seq<Seq<usize>>)
    requires
        is_face_listing(a, fs),
    ensures
        fs == faces_of(a),
{
    lemma_face_listing_unique(a, fs, faces_of(a));
}

} // verus!
