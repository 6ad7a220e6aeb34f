//! Flat face listings.
//!
//! A listing writes the faces of a cell one after another into a single run
//! of integers: the number of corners of a face, then the indices of those
//! corners in order, then the next face.
use vstd::prelude::*;
use crate::model::rows;

verus! {

/// How many of the `avail` entries that follow a count belong to its face:
/// `count` of them, or all that is left where the count is negative or runs
/// past the end of the listing.
pub open spec fn block_len(count: i32, avail: nat) -> nat {
    if 0 <= count && count <= avail {
        count as nat
    } else {
        avail
    }
}

/// The entries of one face read as vertex indices.
pub open spec fn as_indices(s: Seq<i32>) -> Seq<usize> {
    s.map_values(|x: i32| x as usize)
}

/// The faces that a listing holds, in the order in which it holds them.
pub open spec fn listed_faces(s: Seq<i32>) -> Seq<Seq<usize>>
    decreases s.len(),
{
    if s.len() == 0 {
        Seq::empty()
    } else {
        let body = s.skip(1);
        let n = block_len(s[0], body.len()) as int;
        seq![as_indices(body.take(n))] + listed_faces(body.skip(n))
    }
}

/// No entry that stands for a vertex index is negative.
pub open spec fn indices_nonnegative(s: Seq<i32>) -> bool
    decreases s.len(),
{
    s.len() == 0 || {
        let body = s.skip(1);
        let n = block_len(s[0], body.len()) as int;
        (forall|i: int| 0 <= i < n ==> body[i] >= 0) && indices_nonnegative(body.skip(n))
    }
}

/// Skipping the count and then one face is skipping both at once.
proof fn lemma_skip_block(s: Seq<i32>, i: int, n: int)
    requires
        0 <= i < s.len(),
        0 <= n <= s.len() - i - 1,
    ensures
        s.skip(i).skip(1).skip(n) == s.skip(i + 1 + n),
        s.skip(i).skip(1) == s.skip(i + 1),
        s.skip(i)[0] == s[i],
{
    assert(s.skip(i).skip(1) =~= s.skip(i + 1));
    assert(s.skip(i + 1).skip(n) =~= s.skip(i + 1 + n));
}

/// Tells whether `faces_from_listing` can read the listing: whether every
/// entry that stands for a vertex index is at least zero.
pub fn listing_is_readable(listing: &Vec<i32>) -> (ok: bool)
    ensures
        ok == indices_nonnegative(listing@),
{
    let len = listing.len();
    let mut i: usize = 0;
    assert(listing@.skip(0) =~= listing@);
    while i < len
        invariant
            len == listing.len(),
            i <= len,
            indices_nonnegative(listing@) == indices_nonnegative(listing@.skip(i as int)),
        decreases len - i,
    {
        let count = listing[i];
        let avail: usize = len - i - 1;
        let n: usize = if count >= 0 && (count as usize) <= avail {
            count as usize
        } else {
            avail
        };
        proof {
            lemma_skip_block(listing@, i as int, n as int);
        }
        let ghost body = listing@.skip(i + 1);
        let mut j: usize = 0;
        while j < n
            invariant
                len == listing.len(),
                i + 1 + n <= len,
                j <= n,
                body == listing@.skip(i + 1),
                indices_nonnegative(listing@) == indices_nonnegative(listing@.skip(i as int)),
                n == block_len(listing@.skip(i as int)[0], body.len()),
                body == listing@.skip(i as int).skip(1),
                forall|m: int| 0 <= m < j ==> body[m] >= 0,
            decreases n - j,
        {
            if listing[i + 1 + j] < 0 {
                assert(body[j as int] < 0);
                return false;
            }
            j += 1;
        }
        i = i + 1 + n;
    }
    assert(listing@.skip(i as int).len() == 0);
    true
}

/// Reads a flat listing into one vector of vertex indices per face.
///
/// A count of zero gives an empty face. A face whose count is negative or
/// larger than what is left takes every remaining entry.
pub fn faces_from_listing(listing: &Vec<i32>) -> (faces: Vec<Vec<usize>>)
    requires
        indices_nonnegative(listing@),
    ensures
        rows(faces@) == listed_faces(listing@),
{
    let len = listing.len();
    let mut faces: Vec<Vec<usize>> = Vec::new();
    let mut i: usize = 0;
    assert(rows(faces@) =~= Seq::<Seq<usize>>::empty());
    assert(listing@.skip(0) =~= listing@);
    while i < len
        invariant
            len == listing.len(),
            i <= len,
            indices_nonnegative(listing@.skip(i as int)),
            rows(faces@) + listed_faces(listing@.skip(i as int)) == listed_faces(listing@),
        decreases len - i,
    {
        let count = listing[i];
        let avail: usize = len - i - 1;
        let n: usize = if count >= 0 && (count as usize) <= avail {
            count as usize
        } else {
            avail
        };
        proof {
            lemma_skip_block(listing@, i as int, n as int);
        }
        let ghost body = listing@.skip(i + 1);
        let mut face: Vec<usize> = Vec::new();
        let mut j: usize = 0;
        while j < n
            invariant
                len == listing.len(),
                i + 1 + n <= len,
                j <= n,
                body == listing@.skip(i + 1),
                forall|m: int| 0 <= m < n ==> body[m] >= 0,
                face@ == as_indices(body.take(j as int)),
            decreases n - j,
        {
            let entry = listing[i + 1 + j];
            assert(entry == body[j as int]);
            face.push(entry as usize);
            assert(face@ =~= as_indices(body.take(j + 1)));
            j += 1;
        }
        let ghost before = rows(faces@);
        faces.push(face);
        proof {
            assert(rows(faces@) =~= before + seq![as_indices(body.take(n as int))]);
            assert(listed_faces(listing@.skip(i as int)) == seq![as_indices(body.take(n as int))]
                + listed_faces(body.skip(n as int)));
            assert(before + (seq![as_indices(body.take(n as int))] + listed_faces(
                body.skip(n as int),
            )) =~= (before + seq![as_indices(body.take(n as int))]) + listed_faces(
                body.skip(n as int),
            ));
        }
        i = i + 1 + n;
    }
    assert(listing@.skip(i as int).len() == 0);
    assert(rows(faces@) + Seq::<Seq<usize>>::empty() =~= rows(faces@));
    faces
}

} // verus!
