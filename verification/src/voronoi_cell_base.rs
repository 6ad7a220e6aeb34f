//! What both kinds of cell offer: the counts and the faces.
use vstd::prelude::*;
use crate::graph::{edge_total, faces_simple, CellGraph};
use crate::model::rows;
use crate::unique::faces_of;

verus! {

/// Methods which are common to both kinds of cell.
pub trait VoronoiCellBase {
    /// The rings of the cell's graph.
    spec fn rings(&self) -> Seq<Seq<usize>>;

    /// The cell is there: no plane has cut it away, and its graph is that
    /// of a polyhedron.
    spec fn active(&self) -> bool;

    /// The graph of the cell.
    fn graph(&self) -> (g: &CellGraph)
        requires
            self.active(),
        ensures
            g@ == self.rings(),
            g.wf(),
    ;

    /// Counts the faces of the cell.
    fn number_of_faces(&self) -> (n: i32)
        requires
            self.active(),
        ensures
            n == faces_of(self.rings()).len(),
            self.rings().len() - edge_total(self.rings()) + n == 2,
    {
        let g = self.graph();
        proof {
            g.lemma_counts_fit();
        }
        g.face_count() as i32
    }

    /// Counts the edges of the cell.
    fn number_of_edges(&self) -> (n: i32)
        requires
            self.active(),
        ensures
            n == edge_total(self.rings()),
    {
        let g = self.graph();
        proof {
            g.lemma_counts_fit();
        }
        g.edge_count() as i32
    }

    /// Counts the vertices of the cell.
    fn number_of_vertices(&self) -> (n: i32)
        requires
            self.active(),
        ensures
            n == self.rings().len(),
    {
        let g = self.graph();
        proof {
            g.lemma_counts_fit();
        }
        g.vertex_count() as i32
    }

    /// Returns the vertices that make up each face of the cell, as indices
    /// into the list of vertices. A face starts at its least dart, and the
    /// faces stand in the order of those darts. No face holds a vertex twice.
    fn face_vertices(&self) -> (faces: Vec<Vec<usize>>)
        requires
            self.active(),
        ensures
            rows(faces@) == faces_of(self.rings()),
            faces_simple(rows(faces@)),
    {
        self.graph().face_vertices()
    }
}

} // verus!
