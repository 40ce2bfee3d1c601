//! A smooth four-fold-symmetric tangent direction field over a triangulated
//! surface, computed by geometric multigrid: the mesh is coarsened into a
//! hierarchy by greedy weighted vertex-pair agglomeration, a field is seeded
//! at the coarsest level and relaxed while descending the hierarchy.
//!
//! Numeric values travel through the crate as IEEE-754 bit patterns; the
//! arithmetic itself is done by glam behind the named operations of [`fp`],
//! and everything built on those operations — adjacency and dual areas
//! ([`mesh`]), the coarsening hierarchy ([`hierarchy`]), the relaxation
//! ([`orientation`]) and the mesh file reader ([`ply`]) — carries an exact
//! functional contract.

pub mod fp;
pub mod hierarchy;
pub mod mesh;
pub mod orientation;
pub mod ply;
