//! A single Voronoi cell that knows which plane made each of its faces.
use vstd::prelude::*;
use crate::clip::{any_inside, any_outside, labels_after, origins_after, rings_after, splits, Side};
use crate::cut::{clip_labels, copy_rows, has_inside, has_outside};
use crate::graph::{edge_total, polyhedral, CellGraph};
use crate::labels::{face_labels, labels_do_fit, labels_fit, labels_of_faces};
use crate::model::rows;
use crate::shapes::{
    box_face_labels, box_faces, box_label_table, box_labels, box_ring_table, box_rings,
    lemma_box_is_polyhedral, lemma_box_labels_fit, lemma_octahedron_is_polyhedral,
    lemma_octahedron_labels_fit, lemma_tetrahedron_is_polyhedral, lemma_tetrahedron_labels_fit,
    octahedron_face_labels, octahedron_faces, octahedron_label_table, octahedron_labels,
    octahedron_ring_table, octahedron_rings, tetrahedron_face_labels, tetrahedron_faces,
    tetrahedron_label_table, tetrahedron_labels, tetrahedron_ring_table, tetrahedron_rings,
};
use crate::unique::faces_of;
use crate::voronoi_cell_base::VoronoiCellBase;

verus! {

/// A single Voronoi cell, with neighbour information.
///
/// Beside the graph of the polyhedron the cell holds a label for each of
/// its faces. The faces of the starting shape have labels below zero. A
/// face that a plane leaves gets the label that came with the plane, which
/// is meant to name the neighbour on the other side.
///
/// Use this type where it matters which neighbour lies behind a face.
pub struct VoronoiCellNeighbor {
    graph: CellGraph,
    labels: Vec<Vec<i32>>,
    gone: bool,
}

impl VoronoiCellNeighbor {
    /// The rings of the cell's graph.
    pub closed spec fn view(&self) -> Seq<Seq<usize>> {
        self.graph@
    }

    /// For every dart, the label of the face that it lies on.
    pub closed spec fn labels(&self) -> Seq<Seq<i32>> {
        rows(self.labels@)
    }

    /// A plane has cut the whole cell away.
    pub closed spec fn eliminated(&self) -> bool {
        self.gone
    }

    /// The graph of the cell is that of a polyhedron, and every face has
    /// one label.
    pub open spec fn wf(&self) -> bool {
        polyhedral(self@) && labels_fit(self@, self.labels())
    }

    /// The plane with these sides and this label can be applied: where it
    /// cuts the cell in two, the cut leaves a polyhedron whose faces have
    /// one label each.
    pub open spec fn admits(&self, o: Seq<Side>, id: i32) -> bool {
        splits(o) ==> polyhedral(rings_after(self@, o)) && labels_fit(
            rings_after(self@, o),
            labels_after(self@, self.labels(), o, id),
        )
    }

    /// Initializes the cell to be a box. The corner `4z + 2y + x` is the one
    /// at the lower (0) or upper (1) bound in each of the three directions.
    /// The faces at the lower and upper bounds have the labels -1 and -2 in
    /// the first direction, -3 and -4 in the second, -5 and -6 in the third.
    pub fn init() -> (cell: Self)
        ensures
            cell@ == box_rings(),
            faces_of(cell@) == box_faces(),
            edge_total(cell@) == 12,
            cell.labels() == box_labels(),
            face_labels(cell@, cell.labels()) == box_face_labels(),
            cell.wf(),
            !cell.eliminated(),
    {
        proof {
            lemma_box_is_polyhedral();
            lemma_box_labels_fit();
        }
        let made = CellGraph::from_rings(box_ring_table());
        VoronoiCellNeighbor { graph: made.unwrap(), labels: box_label_table(), gone: false }
    }

    /// Initializes the cell to be an octahedron. Its corners are, in order,
    /// the ones on the first axis (lower, upper), on the second and on the
    /// third. Its faces have the labels -1 to -8 in the order in which they
    /// are listed.
    pub fn init_octahedron() -> (cell: Self)
        ensures
            cell@ == octahedron_rings(),
            faces_of(cell@) == octahedron_faces(),
            edge_total(cell@) == 12,
            cell.labels() == octahedron_labels(),
            face_labels(cell@, cell.labels()) == octahedron_face_labels(),
            cell.wf(),
            !cell.eliminated(),
    {
        proof {
            lemma_octahedron_is_polyhedral();
            lemma_octahedron_labels_fit();
        }
        let made = CellGraph::from_rings(octahedron_ring_table());
        VoronoiCellNeighbor { graph: made.unwrap(), labels: octahedron_label_table(), gone: false }
    }

    /// Initializes the cell to be a tetrahedron on four corners. The face
    /// that lies across from corner `i` has the label `-1 - i`.
    pub fn init_tetrahedron() -> (cell: Self)
        ensures
            cell@ == tetrahedron_rings(),
            faces_of(cell@) == tetrahedron_faces(),
            edge_total(cell@) == 6,
            cell.labels() == tetrahedron_labels(),
            face_labels(cell@, cell.labels()) == tetrahedron_face_labels(),
            cell.wf(),
            !cell.eliminated(),
    {
        proof {
            lemma_tetrahedron_is_polyhedral();
            lemma_tetrahedron_labels_fit();
        }
        let made = CellGraph::from_rings(tetrahedron_ring_table());
        VoronoiCellNeighbor { graph: made.unwrap(), labels: tetrahedron_label_table(), gone: false }
    }

    /// Tells whether a plane has cut the whole cell away.
    pub fn is_eliminated(&self) -> (gone: bool)
        ensures
            gone == self.eliminated(),
    {
        self.gone
    }

    /// Tells whether the plane with these sides and this label can be applied.
    pub fn admits_nplane(&self, sides: &Vec<Side>, p_id: i32) -> (ok: bool)
        requires
            self.active(),
            sides.len() == self@.len(),
        ensures
            ok == self.admits(sides@, p_id),
    {
        if has_outside(sides) && has_inside(sides) {
            if !self.graph.admits_cut(sides) {
                return false;
            }
            let mut twin = self.graph.copy();
            twin.cut(sides);
            let labels = clip_labels(self.graph.rings(), &self.labels, sides, p_id);
            labels_do_fit(twin.rings(), &labels)
        } else {
            true
        }
    }

    /// For every vertex that the cell has once the plane with these sides
    /// has been applied, where it comes from: a vertex that stays gives its
    /// old number twice, a new vertex the two ends of the edge that it lies
    /// on, the kept end first.
    pub fn origins(&self, sides: &Vec<Side>) -> (from: Vec<(usize, usize)>)
        requires
            self.active(),
            sides.len() == self@.len(),
        ensures
            from@ == origins_after(self@, sides@),
    {
        if has_outside(sides) {
            self.graph.origins(sides)
        } else {
            let n = self.graph.vertex_count();
            let mut from: Vec<(usize, usize)> = Vec::new();
            let mut v: usize = 0;
            while v < n
                invariant
                    v <= n,
                    from.len() == v,
                    forall|x: int| 0 <= x < v ==> from[x] == (x as usize, x as usize),
                decreases n - v,
            {
                from.push((v, v));
                v += 1;
            }
            assert(from@ =~= origins_after(self@, sides@));
            from
        }
    }

    /// Cuts the cell by a plane, given the side of the plane on which each
    /// vertex lies. The face that the plane leaves gets the label zero; see
    /// `nplane` to give it another.
    ///
    /// Returns false if the plane cut the cell away entirely, true otherwise.
    pub fn plane(&mut self, sides: &Vec<Side>) -> (survives: bool)
        requires
            old(self).active(),
            sides.len() == old(self)@.len(),
            old(self).admits(sides@, 0),
        ensures
            survives == (any_inside(sides@) || !any_outside(sides@)),
            final(self).eliminated() == !survives,
            survives ==> final(self)@ == rings_after(old(self)@, sides@) && final(self).labels()
                == labels_after(old(self)@, old(self).labels(), sides@, 0),
            !survives ==> final(self)@ == old(self)@ && final(self).labels() == old(self).labels(),
            final(self).wf(),
    {
        self.nplane(sides, 0)
    }

    /// Cuts the cell by a plane, given the side of the plane on which each
    /// vertex lies, and the label for the face that the plane leaves.
    ///
    /// Where no vertex lies beyond the plane the cell stays as it is. Where
    /// none lies off the plane on the kept side, nothing of the cell is
    /// left. Otherwise the vertices beyond the plane go, the new face gets
    /// the label `p_id`, and every other face that is left keeps its label.
    ///
    /// Returns false if the plane cut the cell away entirely, true otherwise.
    pub fn nplane(&mut self, sides: &Vec<Side>, p_id: i32) -> (survives: bool)
        requires
            old(self).active(),
            sides.len() == old(self)@.len(),
            old(self).admits(sides@, p_id),
        ensures
            survives == (any_inside(sides@) || !any_outside(sides@)),
            final(self).eliminated() == !survives,
            survives ==> final(self)@ == rings_after(old(self)@, sides@) && final(self).labels()
                == labels_after(old(self)@, old(self).labels(), sides@, p_id),
            !survives ==> final(self)@ == old(self)@ && final(self).labels() == old(self).labels(),
            final(self).wf(),
    {
        if !has_outside(sides) {
            true
        } else if !has_inside(sides) {
            self.gone = true;
            false
        } else {
            let labels = clip_labels(self.graph.rings(), &self.labels, sides, p_id);
            self.graph.cut(sides);
            self.labels = labels;
            true
        }
    }

    /// Returns the labels of the faces, in the order in which
    /// `face_vertices` lists the faces: one label for every face.
    pub fn neighbors(&self) -> (ids: Vec<i32>)
        requires
            self.active(),
        ensures
            ids@ == face_labels(self@, self.labels()),
            ids.len() == faces_of(self@).len(),
    {
        labels_of_faces(self.graph.rings(), &self.labels)
    }

    /// Cuts the cell by a plane as `nplane` does, if the plane can be
    /// applied: if the cell is still there, `sides` has a side for every
    /// vertex, and the cell admits the plane with its label. Returns what
    /// `nplane` returns then, and nothing otherwise, leaving the cell as it
    /// is.
    pub fn try_nplane(&mut self, sides: &Vec<Side>, p_id: i32) -> (done: Option<bool>)
        requires
            old(self).wf(),
        ensures
            done.is_some() == (!old(self).eliminated() && sides.len() == old(self)@.len() && old(self).admits(sides@, p_id)),
            done matches Some(survives) ==> {
                &&& survives == (any_inside(sides@) || !any_outside(sides@))
                &&& final(self).eliminated() == !survives
                &&& survives ==> final(self)@ == rings_after(old(self)@, sides@) && final(self).labels() == labels_after(old(self)@, old(self).labels(), sides@, p_id)
                &&& !survives ==> final(self)@ == old(self)@ && final(self).labels() == old(self).labels()
            },
            done is None ==> final(self)@ == old(self)@ && final(self).labels() == old(self).labels()
                && final(self).eliminated() == old(self).eliminated(),
            final(self).wf(),
    {
        if self.gone || sides.len() != self.graph.vertex_count() {
            None
        } else if !has_outside(sides) {
            Some(true)
        } else if !has_inside(sides) {
            self.gone = true;
            Some(false)
        } else {
            let labels = clip_labels(self.graph.rings(), &self.labels, sides, p_id);
            let mut twin = self.graph.copy();
            if twin.try_cut(sides) && labels_do_fit(twin.rings(), &labels) {
                self.graph = twin;
                self.labels = labels;
                Some(true)
            } else {
                None
            }
        }
    }
}

impl VoronoiCellBase for VoronoiCellNeighbor {
    open spec fn rings(&self) -> Seq<Seq<usize>> {
        self@
    }

    open spec fn active(&self) -> bool {
        self.wf() && !self.eliminated()
    }

    fn graph(&self) -> (g: &CellGraph) {
        &self.graph
    }
}

impl Clone for VoronoiCellNeighbor {
    /// A cell of its own with the same graph and the same labels.
    fn clone(&self) -> (twin: Self)
        ensures
            twin@ == self@,
            twin.labels() == self.labels(),
            twin.eliminated() == self.eliminated(),
    {
        VoronoiCellNeighbor { graph: self.graph.copy(), labels: copy_rows(&self.labels), gone: self.gone }
    }
}

} // verus!
