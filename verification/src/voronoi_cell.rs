//! A single Voronoi cell, without the labels of its faces.
use vstd::prelude::*;
use crate::clip::{any_inside, any_outside, origins_after, rings_after, splits, Side};
use crate::cut::{has_inside, has_outside};
use crate::graph::{edge_total, polyhedral, CellGraph};
use crate::shapes::{
    box_faces, box_ring_table, box_rings, lemma_box_is_polyhedral, lemma_octahedron_is_polyhedral,
    lemma_tetrahedron_is_polyhedral, octahedron_faces, octahedron_ring_table, octahedron_rings,
    tetrahedron_faces, tetrahedron_ring_table, tetrahedron_rings,
};
use crate::unique::faces_of;
use crate::voronoi_cell_base::VoronoiCellBase;

verus! {

/// A single Voronoi cell, without neighbour information.
///
/// The cell is the graph of a convex polyhedron. It starts as a box, an
/// octahedron or a tetrahedron and is cut down by planes. Where the corners
/// stand in space is not held here: a plane is given by the side on which
/// each vertex lies, and the cut answers with what became of the vertices.
///
/// Use this type where the faces need no labels.
pub struct VoronoiCell {
    graph: CellGraph,
    gone: bool,
}

impl VoronoiCell {
    /// The rings of the cell's graph.
    pub closed spec fn view(&self) -> Seq<Seq<usize>> {
        self.graph@
    }

    /// A plane has cut the whole cell away.
    pub closed spec fn eliminated(&self) -> bool {
        self.gone
    }

    /// The graph of the cell is that of a polyhedron.
    pub open spec fn wf(&self) -> bool {
        polyhedral(self@)
    }

    /// The plane with these sides can be applied: where it cuts the cell in
    /// two, the cut leaves a polyhedron.
    pub open spec fn admits(&self, o: Seq<Side>) -> bool {
        splits(o) ==> polyhedral(rings_after(self@, o))
    }

    /// Initializes the cell to be a box. The corner `4z + 2y + x` is the one
    /// at the lower (0) or upper (1) bound in each of the three directions.
    pub fn init() -> (cell: Self)
        ensures
            cell@ == box_rings(),
            faces_of(cell@) == box_faces(),
            edge_total(cell@) == 12,
            cell.wf(),
            !cell.eliminated(),
    {
        proof {
            lemma_box_is_polyhedral();
        }
        let made = CellGraph::from_rings(box_ring_table());
        VoronoiCell { graph: made.unwrap(), gone: false }
    }

    /// Initializes the cell to be an octahedron. Its corners are, in order,
    /// the ones on the first axis (lower, upper), on the second and on the
    /// third.
    pub fn init_octahedron() -> (cell: Self)
        ensures
            cell@ == octahedron_rings(),
            faces_of(cell@) == octahedron_faces(),
            edge_total(cell@) == 12,
            cell.wf(),
            !cell.eliminated(),
    {
        proof {
            lemma_octahedron_is_polyhedral();
        }
        let made = CellGraph::from_rings(octahedron_ring_table());
        VoronoiCell { graph: made.unwrap(), gone: false }
    }

    /// Initializes the cell to be a tetrahedron on four corners.
    pub fn init_tetrahedron() -> (cell: Self)
        ensures
            cell@ == tetrahedron_rings(),
            faces_of(cell@) == tetrahedron_faces(),
            edge_total(cell@) == 6,
            cell.wf(),
            !cell.eliminated(),
    {
        proof {
            lemma_tetrahedron_is_polyhedral();
        }
        let made = CellGraph::from_rings(tetrahedron_ring_table());
        VoronoiCell { graph: made.unwrap(), gone: false }
    }

    /// Tells whether a plane has cut the whole cell away.
    pub fn is_eliminated(&self) -> (gone: bool)
        ensures
            gone == self.eliminated(),
    {
        self.gone
    }

    /// Tells whether the plane with these sides can be applied.
    pub fn admits_plane(&self, sides: &Vec<Side>) -> (ok: bool)
        requires
            self.active(),
            sides.len() == self@.len(),
        ensures
            ok == self.admits(sides@),
    {
        if has_outside(sides) && has_inside(sides) {
            self.graph.admits_cut(sides)
        } else {
            true
        }
    }

    /// For every vertex that the cell has once the plane with these sides
    /// has been applied, where it comes from: a vertex that stays gives its
    /// old number twice, a new vertex the two ends of the edge that it lies
    /// on, the kept end first.
    pub fn origins(&self, sides: &Vec<Side>) -> (from: Vec<(usize, usize)>)
        requires
            self.active(),
            sides.len() == self@.len(),
        ensures
            from@ == origins_after(self@, sides@),
    {
        if has_outside(sides) {
            self.graph.origins(sides)
        } else {
            let n = self.graph.vertex_count();
            let mut from: Vec<(usize, usize)> = Vec::new();
            let mut v: usize = 0;
            while v < n
                invariant
                    v <= n,
                    from.len() == v,
                    forall|x: int| 0 <= x < v ==> from[x] == (x as usize, x as usize),
                decreases n - v,
            {
                from.push((v, v));
                v += 1;
            }
            assert(from@ =~= origins_after(self@, sides@));
            from
        }
    }

    /// Cuts the cell by a plane, given the side of the plane on which each
    /// vertex lies.
    ///
    /// Where no vertex lies beyond the plane the cell stays as it is. Where
    /// none lies off the plane on the kept side, nothing of the cell is
    /// left. Otherwise the vertices beyond the plane go and the cell gets a
    /// new face.
    ///
    /// Returns false if the plane cut the cell away entirely, true otherwise.
    pub fn plane(&mut self, sides: &Vec<Side>) -> (survives: bool)
        requires
            old(self).active(),
            sides.len() == old(self)@.len(),
            old(self).admits(sides@),
        ensures
            survives == (any_inside(sides@) || !any_outside(sides@)),
            final(self).eliminated() == !survives,
            survives ==> final(self)@ == rings_after(old(self)@, sides@),
            !survives ==> final(self)@ == old(self)@,
            final(self).wf(),
    {
        if !has_outside(sides) {
            true
        } else if !has_inside(sides) {
            self.gone = true;
            false
        } else {
            self.graph.cut(sides);
            true
        }
    }

    /// Cuts the cell by a plane as `plane` does, if the plane can be
    /// applied: if the cell is still there, `sides` has a side for every
    /// vertex, and the cell admits the plane. Returns what `plane` returns
    /// then, and nothing otherwise, leaving the cell as it is.
    pub fn try_plane(&mut self, sides: &Vec<Side>) -> (done: Option<bool>)
        requires
            old(self).wf(),
        ensures
            done.is_some() == (!old(self).eliminated() && sides.len() == old(self)@.len() && old(self).admits(sides@)),
            done matches Some(survives) ==> {
                &&& survives == (any_inside(sides@) || !any_outside(sides@))
                &&& final(self).eliminated() == !survives
                &&& survives ==> final(self)@ == rings_after(old(self)@, sides@)
                &&& !survives ==> final(self)@ == old(self)@
            },
            done is None ==> final(self)@ == old(self)@ && final(self).eliminated() == old(self).eliminated(),
            final(self).wf(),
    {
        if self.gone || sides.len() != self.graph.vertex_count() {
            None
        } else if !has_outside(sides) {
            Some(true)
        } else if !has_inside(sides) {
            self.gone = true;
            Some(false)
        } else if self.graph.try_cut(sides) {
            Some(true)
        } else {
            None
        }
    }
}

impl VoronoiCellBase for VoronoiCell {
    open spec fn rings(&self) -> Seq<Seq<usize>> {
        self@
    }

    open spec fn active(&self) -> bool {
        self.wf() && !self.eliminated()
    }

    fn graph(&self) -> (g: &CellGraph) {
        &self.graph
    }
}

impl Clone for VoronoiCell {
    /// A cell of its own with the same graph.
    fn clone(&self) -> (twin: Self)
        ensures
            twin@ == self@,
            twin.eliminated() == self.eliminated(),
    {
        VoronoiCell { graph: self.graph.copy(), gone: self.gone }
    }
}

} // verus!
