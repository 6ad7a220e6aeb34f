//! Combinatorial core of a three-dimensional Voronoi cell.
//!
//! A cell is a convex polyhedron that is cut down, plane by plane, from a
//! simple starting shape. This crate holds the part of that computation that
//! is free of floating point: the graph of the polyhedron, its faces, the
//! labels of the faces and the surgery that a cutting plane performs on the
//! graph once every vertex has been put on one side of it.
//!
//! The cells are `VoronoiCell` and, with a label for every face,
//! `VoronoiCellNeighbor`; what they share is `VoronoiCellBase`. Below them
//! stands `CellGraph`, the graph alone. The modules `model` and `clip` say
//! in mathematical terms what a graph, its faces and a cut are; `laws`,
//! `walks`, `relink` and `unique` prove what holds of them.
pub mod clip;
pub mod cut;
pub mod faces;
pub mod graph;
pub mod labels;
pub mod laws;
pub mod listing;
pub mod model;
pub mod relink;
pub mod rings;
pub mod shapes;
pub mod unique;
pub mod voronoi_cell;
pub mod voronoi_cell_base;
pub mod voronoi_cell_neighbor;
pub mod walks;

pub use clip::Side;
pub use graph::CellGraph;
pub use voronoi_cell::VoronoiCell;
pub use voronoi_cell_base::VoronoiCellBase;
pub use voronoi_cell_neighbor::VoronoiCellNeighbor;
