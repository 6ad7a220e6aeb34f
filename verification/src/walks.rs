//! The walks of a cut come to an end.
//!
//! A face is a cycle: the darts of a graph are finitely many and the step
//! along a face is one-to-one, so that a walk along a face returns to where
//! it started before it has made more steps than there are darts. A walk
//! that looks for a kept vertex therefore finds one, if the face has any.
use vstd::prelude::*;
use vstd::set_lib::{lemma_int_range, lemma_len_subset, set_int_range};
use crate::clip::{enter, kept, leave, Side};
use crate::model::{
    degree_sum, head, is_dart, lemma_next_injective, lemma_next_is_dart, lemma_next_prev,
    lemma_orbit_add, lemma_orbit_is_dart, lemma_prev_next, next, orbit, prev, rings_valid,
};
use crate::rings::lemma_degree_sum_grows;

verus! {

/// Among more numbers than `m`, all of them below `m`, two are the same.
proof fn lemma_two_alike(s: Seq<int>, m: int) -> (ij: (int, int))
    requires
        0 <= m < s.len(),
        forall|i: int| 0 <= i < s.len() ==> 0 <= #[trigger] s[i] < m,
    ensures
        0 <= ij.0 < ij.1 < s.len(),
        s[ij.0] == s[ij.1],
{
    if s.no_duplicates() {
        s.unique_seq_to_set();
        lemma_int_range(0, m);
        assert(s.to_set().subset_of(set_int_range(0, m))) by {
            assert forall|x: int| s.to_set().contains(x) implies set_int_range(0, m).contains(x) by {
                let i = choose|i: int| 0 <= i < s.len() && s[i] == x;
                assert(0 <= s[i] < m);
            }
        }
        lemma_len_subset(s.to_set(), set_int_range(0, m));
        assert(false);
    }
    let (i, j) = choose|i: int, j: int| 0 <= i < s.len() && 0 <= j < s.len() && i != j && s[i] == s[j];
    if i < j {
        (i, j)
    } else {
        (j, i)
    }
}

/// The number of a dart when the darts are counted ring by ring.
spec fn dart_number(a: Seq<Seq<usize>>, d: (int, int)) -> int {
    degree_sum(a, d.0) + d.1
}

/// Different darts have different numbers, all below the number of darts.
proof fn lemma_dart_numbers(a: Seq<Seq<usize>>, d: (int, int), e: (int, int))
    requires
        is_dart(a, d),
        is_dart(a, e),
    ensures
        0 <= dart_number(a, d) < degree_sum(a, a.len() as int),
        d != e ==> dart_number(a, d) != dart_number(a, e),
{
    lemma_degree_sum_grows(a, d.0, d.0 + 1);
    lemma_degree_sum_grows(a, d.0 + 1, a.len() as int);
    lemma_degree_sum_grows(a, e.0, e.0 + 1);
    if d.0 < e.0 {
        lemma_degree_sum_grows(a, d.0 + 1, e.0);
    }
    if e.0 < d.0 {
        lemma_degree_sum_grows(a, e.0 + 1, d.0);
    }
}

/// If two walks from the same dart end at the same dart, the longer one has
/// come by the start on its way.
proof fn lemma_orbit_cancel(a: Seq<Seq<usize>>, d: (int, int), i: nat, j: nat)
    requires
        rings_valid(a),
        is_dart(a, d),
        i <= j,
        orbit(a, d, i) == orbit(a, d, j),
    ensures
        orbit(a, d, (j - i) as nat) == d,
    decreases i,
{
    if i > 0 {
        lemma_orbit_is_dart(a, d, (i - 1) as nat);
        lemma_orbit_is_dart(a, d, (j - 1) as nat);
        lemma_next_injective(a, orbit(a, d, (i - 1) as nat), orbit(a, d, (j - 1) as nat));
        lemma_orbit_cancel(a, d, (i - 1) as nat, (j - 1) as nat);
    }
}

/// Every face is a cycle: the walk from a dart along its face returns to
/// the dart after no more steps than the graph has darts.
pub proof fn lemma_face_returns(a: Seq<Seq<usize>>, d: (int, int)) -> (p: nat)
    requires
        rings_valid(a),
        is_dart(a, d),
    ensures
        0 < p <= degree_sum(a, a.len() as int),
        orbit(a, d, p) == d,
{
    let total = degree_sum(a, a.len() as int);
    lemma_dart_numbers(a, d, d);
    let s = Seq::new((total + 1) as nat, |i: int| dart_number(a, orbit(a, d, i as nat)));
    assert forall|i: int| 0 <= i < s.len() implies 0 <= #[trigger] s[i] < total by {
        lemma_orbit_is_dart(a, d, i as nat);
        lemma_dart_numbers(a, orbit(a, d, i as nat), d);
    }
    let (i, j) = lemma_two_alike(s, total);
    lemma_orbit_is_dart(a, d, i as nat);
    lemma_orbit_is_dart(a, d, j as nat);
    lemma_dart_numbers(a, orbit(a, d, i as nat), orbit(a, d, j as nat));
    lemma_orbit_cancel(a, d, i as nat, j as nat);
    (j - i) as nat
}

/// A walk ahead that has a kept vertex within reach ends at a dart that
/// points at a kept vertex.
proof fn lemma_enter_finds(a: Seq<Seq<usize>>, o: Seq<Side>, d: (int, int), fuel: nat, i: nat)
    requires
        rings_valid(a),
        is_dart(a, d),
        i <= fuel,
        kept(o, head(a, orbit(a, d, i))),
    ensures
        is_dart(a, enter(a, o, d, fuel)),
        kept(o, head(a, enter(a, o, d, fuel))),
    decreases fuel,
{
    if !kept(o, head(a, d)) {
        assert(i > 0) by {
            assert(orbit(a, d, 0) == d);
        }
        lemma_next_is_dart(a, d);
        assert(orbit(a, d, 1) == next(a, d)) by {
            assert(orbit(a, d, 0) == d);
        }
        lemma_orbit_add(a, d, 1, (i - 1) as nat);
        lemma_enter_finds(a, o, next(a, d), (fuel - 1) as nat, (i - 1) as nat);
    }
}

/// The walk of a cut ahead of a dart that leaves a kept vertex ends at a
/// dart that points at a kept vertex: it does not give up.
pub proof fn lemma_walk_ahead_ends(a: Seq<Seq<usize>>, o: Seq<Side>, d: (int, int))
    requires
        rings_valid(a),
        is_dart(a, d),
        kept(o, d.0),
    ensures
        is_dart(a, enter(a, o, d, degree_sum(a, a.len() as int) as nat)),
        kept(o, head(a, enter(a, o, d, degree_sum(a, a.len() as int) as nat))),
{
    let p = lemma_face_returns(a, d);
    let last = orbit(a, d, (p - 1) as nat);
    lemma_orbit_is_dart(a, d, (p - 1) as nat);
    lemma_next_is_dart(a, last);
    assert(orbit(a, d, p) == next(a, last));
    assert(head(a, last) == d.0);
    lemma_enter_finds(a, o, d, degree_sum(a, a.len() as int) as nat, (p - 1) as nat);
}

/// The dart reached from `d` by `i` steps back along its face.
spec fn orbit_back(a: Seq<Seq<usize>>, d: (int, int), i: nat) -> (int, int)
    decreases i,
{
    if i == 0 {
        d
    } else {
        prev(a, orbit_back(a, d, (i - 1) as nat))
    }
}

/// On a face of `p` darts, `i` steps back are `p - i` steps ahead.
proof fn lemma_orbit_back(a: Seq<Seq<usize>>, d: (int, int), p: nat, i: nat)
    requires
        rings_valid(a),
        is_dart(a, d),
        orbit(a, d, p) == d,
        i <= p,
    ensures
        orbit_back(a, d, i) == orbit(a, d, (p - i) as nat),
    decreases i,
{
    if i > 0 {
        lemma_orbit_back(a, d, p, (i - 1) as nat);
        let e = orbit(a, d, (p - i) as nat);
        lemma_orbit_is_dart(a, d, (p - i) as nat);
        assert(orbit(a, d, (p - i + 1) as nat) == next(a, e));
        lemma_prev_next(a, e);
    }
}

/// A walk back that has a kept vertex within reach ends at a dart that
/// leaves a kept vertex.
proof fn lemma_leave_finds(a: Seq<Seq<usize>>, o: Seq<Side>, d: (int, int), fuel: nat, i: nat)
    requires
        rings_valid(a),
        is_dart(a, d),
        i <= fuel,
        kept(o, orbit_back(a, d, i).0),
    ensures
        is_dart(a, leave(a, o, d, fuel)),
        kept(o, leave(a, o, d, fuel).0),
    decreases fuel,
{
    if !kept(o, d.0) {
        assert(i > 0) by {
            assert(orbit_back(a, d, 0) == d);
        }
        lemma_next_prev(a, d);
        lemma_orbit_back_shift(a, d, (i - 1) as nat);
        lemma_leave_finds(a, o, prev(a, d), (fuel - 1) as nat, (i - 1) as nat);
    }
}

/// One step back and then `i` more are `i + 1` steps back.
proof fn lemma_orbit_back_shift(a: Seq<Seq<usize>>, d: (int, int), i: nat)
    ensures
        orbit_back(a, prev(a, d), i) == orbit_back(a, d, i + 1),
    decreases i,
{
    if i > 0 {
        lemma_orbit_back_shift(a, d, (i - 1) as nat);
    } else {
        assert(orbit_back(a, d, 1) == prev(a, orbit_back(a, d, 0)));
    }
}

/// The walk of a cut back from a dart that points at a kept vertex ends at
/// a dart that leaves a kept vertex: it does not give up.
pub proof fn lemma_walk_back_ends(a: Seq<Seq<usize>>, o: Seq<Side>, d: (int, int))
    requires
        rings_valid(a),
        is_dart(a, d),
        kept(o, head(a, d)),
    ensures
        is_dart(a, leave(a, o, d, degree_sum(a, a.len() as int) as nat)),
        kept(o, leave(a, o, d, degree_sum(a, a.len() as int) as nat).0),
{
    let p = lemma_face_returns(a, d);
    lemma_orbit_back(a, d, p, (p - 1) as nat);
    assert(orbit(a, d, 1) == next(a, d)) by {
        assert(orbit(a, d, 0) == d);
    }
    lemma_next_is_dart(a, d);
    lemma_leave_finds(a, o, d, degree_sum(a, a.len() as int) as nat, (p - 1) as nat);
}

/// A walk ahead that ends is a walk of so many steps: it ends at the first
/// dart that points at a kept vertex.
proof fn lemma_enter_steps(a: Seq<Seq<usize>>, o: Seq<Side>, d: (int, int), fuel: nat) -> (t: nat)
    requires
        kept(o, head(a, enter(a, o, d, fuel))),
    ensures
        t <= fuel,
        enter(a, o, d, fuel) == orbit(a, d, t),
        forall|i: nat| i < t ==> !kept(o, head(a, #[trigger] orbit(a, d, i))),
    decreases fuel,
{
    assert(orbit(a, d, 0) == d);
    if kept(o, head(a, d)) || fuel == 0 {
        0
    } else {
        let t = lemma_enter_steps(a, o, next(a, d), (fuel - 1) as nat);
        assert(orbit(a, d, 1) == next(a, d));
        lemma_orbit_add(a, d, 1, t);
        assert forall|i: nat| i < t + 1 implies !kept(o, head(a, #[trigger] orbit(a, d, i))) by {
            if i > 0 {
                lemma_orbit_add(a, d, 1, (i - 1) as nat);
                assert(orbit(a, d, i) == orbit(a, next(a, d), (i - 1) as nat));
            }
        }
        t + 1
    }
}

/// A walk back that ends is a walk of so many steps: it ends at the first
/// dart that leaves a kept vertex.
proof fn lemma_leave_steps(a: Seq<Seq<usize>>, o: Seq<Side>, d: (int, int), fuel: nat) -> (t: nat)
    requires
        kept(o, leave(a, o, d, fuel).0),
    ensures
        t <= fuel,
        leave(a, o, d, fuel) == orbit_back(a, d, t),
        forall|i: nat| i < t ==> !kept(o, (#[trigger] orbit_back(a, d, i)).0),
    decreases fuel,
{
    assert(orbit_back(a, d, 0) == d);
    if kept(o, d.0) || fuel == 0 {
        0
    } else {
        let t = lemma_leave_steps(a, o, prev(a, d), (fuel - 1) as nat);
        lemma_orbit_back_shift(a, d, t);
        assert forall|i: nat| i < t + 1 implies !kept(o, (#[trigger] orbit_back(a, d, i)).0) by {
            if i > 0 {
                lemma_orbit_back_shift(a, d, (i - 1) as nat);
            }
        }
        t + 1
    }
}

/// A walk ahead of `t` steps, where no dart before the last points at a
/// kept vertex, is what the walk of the cut does with enough fuel.
proof fn lemma_enter_is(a: Seq<Seq<usize>>, o: Seq<Side>, d: (int, int), fuel: nat, t: nat)
    requires
        t <= fuel,
        kept(o, head(a, orbit(a, d, t))),
        forall|i: nat| i < t ==> !kept(o, head(a, #[trigger] orbit(a, d, i))),
    ensures
        enter(a, o, d, fuel) == orbit(a, d, t),
    decreases t,
{
    assert(orbit(a, d, 0) == d);
    if t > 0 {
        assert(orbit(a, d, 1) == next(a, d));
        lemma_orbit_add(a, d, 1, (t - 1) as nat);
        assert forall|i: nat| i < t - 1 implies !kept(o, head(a, #[trigger] orbit(a, next(a, d), i))) by {
            lemma_orbit_add(a, d, 1, i);
            assert(!kept(o, head(a, orbit(a, d, i + 1))));
        }
        lemma_enter_is(a, o, next(a, d), (fuel - 1) as nat, (t - 1) as nat);
    }
}

/// A walk back of `t` steps, where no dart before the last leaves a kept
/// vertex, is what the walk of the cut does with enough fuel.
proof fn lemma_leave_is(a: Seq<Seq<usize>>, o: Seq<Side>, d: (int, int), fuel: nat, t: nat)
    requires
        t <= fuel,
        kept(o, orbit_back(a, d, t).0),
        forall|i: nat| i < t ==> !kept(o, (#[trigger] orbit_back(a, d, i)).0),
    ensures
        leave(a, o, d, fuel) == orbit_back(a, d, t),
    decreases t,
{
    assert(orbit_back(a, d, 0) == d);
    if t > 0 {
        lemma_orbit_back_shift(a, d, (t - 1) as nat);
        assert forall|i: nat| i < t - 1 implies !kept(o, (#[trigger] orbit_back(a, prev(a, d), i)).0) by {
            lemma_orbit_back_shift(a, d, i);
            assert(!kept(o, orbit_back(a, d, i + 1).0));
        }
        lemma_leave_is(a, o, prev(a, d), (fuel - 1) as nat, (t - 1) as nat);
    }
}

/// Steps back undo steps ahead.
proof fn lemma_back_of_ahead(a: Seq<Seq<usize>>, d: (int, int), t: nat, i: nat)
    requires
        rings_valid(a),
        is_dart(a, d),
        i <= t,
    ensures
        orbit_back(a, orbit(a, d, t), i) == orbit(a, d, (t - i) as nat),
    decreases i,
{
    if i > 0 {
        lemma_back_of_ahead(a, d, t, (i - 1) as nat);
        let e = orbit(a, d, (t - i) as nat);
        lemma_orbit_is_dart(a, d, (t - i) as nat);
        assert(orbit(a, d, (t - i + 1) as nat) == next(a, e));
        lemma_prev_next(a, e);
    }
}

/// Steps ahead undo steps back.
proof fn lemma_ahead_of_back(a: Seq<Seq<usize>>, d: (int, int), t: nat, i: nat)
    requires
        rings_valid(a),
        is_dart(a, d),
        i <= t,
    ensures
        orbit(a, orbit_back(a, d, t), i) == orbit_back(a, d, (t - i) as nat),
        is_dart(a, orbit_back(a, d, t)),
    decreases i,
{
    lemma_orbit_back_is_dart(a, d, t);
    if i > 0 {
        lemma_ahead_of_back(a, d, t, (i - 1) as nat);
        let e = orbit_back(a, d, (t - i) as nat);
        lemma_orbit_back_is_dart(a, d, (t - i) as nat);
        assert(orbit_back(a, d, (t - i + 1) as nat) == prev(a, e));
        lemma_next_prev(a, e);
    }
}

/// Every dart of a walk back is a dart.
proof fn lemma_orbit_back_is_dart(a: Seq<Seq<usize>>, d: (int, int), i: nat)
    requires
        rings_valid(a),
        is_dart(a, d),
    ensures
        is_dart(a, orbit_back(a, d, i)),
    decreases i,
{
    if i > 0 {
        lemma_orbit_back_is_dart(a, d, (i - 1) as nat);
        lemma_next_prev(a, orbit_back(a, d, (i - 1) as nat));
    }
}

/// The walk ahead from a dart that leaves a kept vertex for one beyond the
/// plane ends at a dart that comes from beyond the plane, and the walk back
/// from there ends where the walk ahead began.
pub proof fn lemma_ahead_and_back(a: Seq<Seq<usize>>, o: Seq<Side>, d: (int, int))
    requires
        rings_valid(a),
        is_dart(a, d),
        kept(o, d.0),
        !kept(o, head(a, d)),
    ensures
        ({
            let fuel = degree_sum(a, a.len() as int) as nat;
            let e = enter(a, o, d, fuel);
            &&& is_dart(a, e)
            &&& kept(o, head(a, e))
            &&& !kept(o, e.0)
            &&& leave(a, o, e, fuel) == d
        }),
{
    let fuel = degree_sum(a, a.len() as int) as nat;
    let e = enter(a, o, d, fuel);
    lemma_walk_ahead_ends(a, o, d);
    let t = lemma_enter_steps(a, o, d, fuel);
    assert(orbit(a, d, 0) == d);
    assert(t > 0);
    lemma_orbit_is_dart(a, d, (t - 1) as nat);
    lemma_next_is_dart(a, orbit(a, d, (t - 1) as nat));
    assert(orbit(a, d, t) == next(a, orbit(a, d, (t - 1) as nat)));
    assert forall|i: nat| i < t implies !kept(o, (#[trigger] orbit_back(a, e, i)).0) by {
        lemma_back_of_ahead(a, d, t, i);
        let j = (t - i) as nat;
        lemma_orbit_is_dart(a, d, (j - 1) as nat);
        lemma_next_is_dart(a, orbit(a, d, (j - 1) as nat));
        assert(orbit(a, d, j) == next(a, orbit(a, d, (j - 1) as nat)));
    }
    lemma_back_of_ahead(a, d, t, t);
    lemma_leave_is(a, o, e, fuel, t);
}

/// The walk back from a dart that comes from beyond the plane to a kept
/// vertex ends at a dart that points beyond the plane, and the walk ahead
/// from there ends where the walk back began.
pub proof fn lemma_back_and_ahead(a: Seq<Seq<usize>>, o: Seq<Side>, d: (int, int))
    requires
        rings_valid(a),
        is_dart(a, d),
        kept(o, head(a, d)),
        !kept(o, d.0),
    ensures
        ({
            let fuel = degree_sum(a, a.len() as int) as nat;
            let f = leave(a, o, d, fuel);
            &&& is_dart(a, f)
            &&& kept(o, f.0)
            &&& !kept(o, head(a, f))
            &&& enter(a, o, f, fuel) == d
        }),
{
    let fuel = degree_sum(a, a.len() as int) as nat;
    let f = leave(a, o, d, fuel);
    lemma_walk_back_ends(a, o, d);
    let t = lemma_leave_steps(a, o, d, fuel);
    assert(orbit_back(a, d, 0) == d);
    assert(t > 0);
    assert forall|i: nat| i < t implies !kept(o, head(a, #[trigger] orbit(a, f, i))) by {
        lemma_ahead_of_back(a, d, t, i);
        lemma_ahead_of_back(a, d, t, i + 1);
        let g = orbit(a, f, i);
        lemma_orbit_is_dart(a, f, i);
        lemma_next_is_dart(a, g);
        assert(orbit(a, f, i + 1) == next(a, g));
        assert(head(a, g) == orbit_back(a, d, (t - i - 1) as nat).0);
    }
    lemma_ahead_of_back(a, d, t, t);
    lemma_ahead_of_back(a, d, t, 0);
    assert(orbit(a, f, 0) == f);
    lemma_enter_is(a, o, f, fuel, t);
}

} // verus!
