//! Combinatorial core of a boundary-representation tessellator.
//!
//! The numeric side of tessellation (evaluating curves and surfaces, inverting
//! parameters, deciding geometric predicates, running the Delaunay primitive) is
//! supplied by the caller as functions. This crate owns what is discrete: the
//! parameter-space polyline and its loops, seam unwrapping decisions, the
//! odd-parity inclusion count, the constraint insertion policy, the index
//! structure of the output mesh, and the identity-preserving walk over a shell.
pub mod constraint;
pub mod face;
pub mod inclusion;
pub mod mesh;
pub mod pcurve;
pub mod polyline;
pub mod polyline_curve;
pub mod ray;
pub mod seam;
pub mod search;
pub mod shell;
pub mod topology;
pub mod triangulation;
pub mod trimming;
pub mod winding;
