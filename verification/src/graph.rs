//! The graph of a cell, held as one ring of neighbours per vertex.
use vstd::prelude::*;
use crate::clip::{clipped_origins, clipped_rings, Side};
use crate::cut::{clip_origins, clip_rings, copy_rows, lemma_three_darts_each};
use crate::faces::faces_in;
use crate::model::{degree_sum, is_face_listing, rows};
use crate::rings::{dart_count, is_rotation, rings_are_rotation};
use crate::unique::{faces_of, lemma_faces_of};

verus! {

/// The number of edges: half the number of darts.
pub open spec fn edge_total(a: Seq<Seq<usize>>) -> int {
    degree_sum(a, a.len() as int) / 2
}

/// No face comes by a vertex twice.
pub open spec fn faces_simple(fs: Seq<Seq<usize>>) -> bool {
    forall|j: int| 0 <= j < fs.len() ==> (#[trigger] fs[j]).no_duplicates()
}

/// The graph lies on a sphere: its faces can be listed, none of them comes
/// by a vertex twice, and vertices, edges and faces satisfy Euler's formula.
pub open spec fn spherical(a: Seq<Seq<usize>>) -> bool {
    &&& is_face_listing(a, faces_of(a))
    &&& faces_simple(faces_of(a))
    &&& a.len() - edge_total(a) + faces_of(a).len() == 2
}

/// Tells whether no vertex stands twice in the face.
fn face_is_simple(face: &Vec<usize>) -> (ok: bool)
    ensures
        ok == face@.no_duplicates(),
{
    let mut k: usize = 0;
    while k < face.len()
        invariant
            k <= face.len(),
            forall|i: int, j: int| 0 <= i < j < k ==> face@[i] != face@[j],
        decreases face.len() - k,
    {
        let mut j: usize = 0;
        while j < k
            invariant
                k < face.len(),
                j <= k,
                forall|i: int| 0 <= i < j ==> face@[i] != face@[k as int],
            decreases k - j,
        {
            if face[j] == face[k] {
                return false;
            }
            j += 1;
        }
        k += 1;
    }
    true
}

/// The rings are those of a convex polyhedron, as far as the rings can tell:
/// a graph that can be held and that lies on a sphere.
pub open spec fn polyhedral(a: Seq<Seq<usize>>) -> bool {
    is_rotation(a) && spherical(a)
}

/// Tells whether the rings are those of a polyhedron.
pub fn rings_are_polyhedral(rings: &Vec<Vec<usize>>) -> (ok: bool)
    ensures
        ok == polyhedral(rows(rings@)),
{
    if !rings_are_rotation(rings) {
        return false;
    }
    let faces = faces_in(rings);
    proof {
        lemma_faces_of(rows(rings@), rows(faces@));
    }
    let mut j: usize = 0;
    while j < faces.len()
        invariant
            j <= faces.len(),
            rows(faces@) == faces_of(rows(rings@)),
            forall|i: int| 0 <= i < j ==> (#[trigger] rows(faces@)[i]).no_duplicates(),
        decreases faces.len() - j,
    {
        assert(rows(faces@)[j as int] == faces[j as int]@);
        if !face_is_simple(&faces[j]) {
            return false;
        }
        j += 1;
    }
    let darts = dart_count(rings);
    let n = rings.len();
    let f = faces.len();
    (n as u128) + (f as u128) == ((darts / 2) as u128) + 2
}

/// The graph of a convex polyhedron.
///
/// Vertices are numbered from zero. Each has a ring: its neighbours in the
/// order in which they stand around it. The faces are not stored; they are
/// read off the rings.
pub struct CellGraph {
    rings: Vec<Vec<usize>>,
}

impl CellGraph {
    /// The rings of the graph, one per vertex.
    pub closed spec fn view(&self) -> Seq<Seq<usize>> {
        rows(self.rings@)
    }

    /// The graph is that of a polyhedron.
    pub open spec fn wf(&self) -> bool {
        polyhedral(self@)
    }

    /// The faces of the graph, each as the list of its vertices.
    pub open spec fn faces(&self) -> Seq<Seq<usize>> {
        faces_of(self@)
    }

    /// Makes a graph from its rings, if they are those of a polyhedron.
    pub fn from_rings(rings: Vec<Vec<usize>>) -> (made: Option<CellGraph>)
        ensures
            made.is_some() == polyhedral(rows(rings@)),
            made matches Some(g) ==> g@ == rows(rings@) && g.wf(),
    {
        if rings_are_polyhedral(&rings) {
            Some(CellGraph { rings })
        } else {
            None
        }
    }

    /// The rings of the graph.
    pub fn rings(&self) -> (rings: &Vec<Vec<usize>>)
        ensures
            rows(rings@) == self@,
    {
        &self.rings
    }

    /// The number of vertices.
    pub fn vertex_count(&self) -> (n: usize)
        ensures
            n == self@.len(),
    {
        self.rings.len()
    }

    /// The number of edges: half the sum of the lengths of the rings.
    pub fn edge_count(&self) -> (n: usize)
        requires
            self.wf(),
        ensures
            n == edge_total(self@),
    {
        dart_count(&self.rings) / 2
    }

    /// The faces of the cell, each as the list of its vertices in order.
    ///
    /// A face starts at its least dart, and the faces stand in the order of
    /// those darts: first by vertex, then by place in that vertex's ring.
    pub fn face_vertices(&self) -> (faces: Vec<Vec<usize>>)
        requires
            self.wf(),
        ensures
            rows(faces@) == self.faces(),
            is_face_listing(self@, rows(faces@)),
            faces_simple(rows(faces@)),
    {
        let faces = faces_in(&self.rings);
        proof {
            lemma_faces_of(self@, rows(faces@));
        }
        faces
    }

    /// The number of faces. With the vertices and the edges it satisfies
    /// Euler's formula.
    pub fn face_count(&self) -> (n: usize)
        requires
            self.wf(),
        ensures
            n == self.faces().len(),
            self@.len() - edge_total(self@) + n == 2,
    {
        self.face_vertices().len()
    }

    /// The cut that the sides describe leaves a polyhedron.
    pub open spec fn admits(&self, o: Seq<Side>) -> bool {
        polyhedral(clipped_rings(self@, o))
    }

    /// Tells whether the cut that the sides describe leaves a polyhedron.
    pub fn admits_cut(&self, sides: &Vec<Side>) -> (ok: bool)
        requires
            self.wf(),
            sides.len() == self@.len(),
        ensures
            ok == self.admits(sides@),
    {
        let cut = clip_rings(&self.rings, sides);
        rings_are_polyhedral(&cut)
    }

    /// Cuts the graph: the vertices beyond the plane go, the edges that
    /// cross the plane get new vertices, and the new face is closed.
    pub fn cut(&mut self, sides: &Vec<Side>)
        requires
            old(self).wf(),
            sides.len() == old(self)@.len(),
            old(self).admits(sides@),
        ensures
            final(self)@ == clipped_rings(old(self)@, sides@),
            final(self).wf(),
    {
        let cut = clip_rings(&self.rings, sides);
        self.rings = cut;
    }

    /// Cuts the graph if the cut leaves a polyhedron, and tells whether it
    /// did; the graph stays as it is otherwise.
    pub fn try_cut(&mut self, sides: &Vec<Side>) -> (done: bool)
        requires
            old(self).wf(),
            sides.len() == old(self)@.len(),
        ensures
            done == old(self).admits(sides@),
            done ==> final(self)@ == clipped_rings(old(self)@, sides@),
            !done ==> final(self)@ == old(self)@,
            final(self).wf(),
    {
        let cut = clip_rings(&self.rings, sides);
        if rings_are_polyhedral(&cut) {
            self.rings = cut;
            true
        } else {
            false
        }
    }

    /// For every vertex that the cut would leave, where it comes from: a
    /// kept vertex `v` gives `(v, v)`, a new vertex gives the two ends of
    /// the edge that it lies on, the kept end first.
    pub fn origins(&self, sides: &Vec<Side>) -> (from: Vec<(usize, usize)>)
        requires
            self.wf(),
            sides.len() == self@.len(),
        ensures
            from@ == clipped_origins(self@, sides@),
    {
        clip_origins(&self.rings, sides)
    }

    /// A graph of its own with the same rings.
    pub fn copy(&self) -> (twin: CellGraph)
        ensures
            twin@ == self@,
    {
        CellGraph { rings: copy_rows(&self.rings) }
    }

    /// The counts of a polyhedron fit in `i32`.
    pub proof fn lemma_counts_fit(&self)
        requires
            self.wf(),
        ensures
            self@.len() <= i32::MAX,
            edge_total(self@) <= i32::MAX,
            self.faces().len() <= i32::MAX,
    {
        lemma_three_darts_each(self@, self@.len() as int);
    }
}

} // verus!
