//! Two-dimensional Ising model on a periodic lattice, advanced by
//! single-spin-flip Metropolis updates.

pub mod acceptance;
pub mod energy;
pub mod lattice;
pub mod laws;
pub mod model;
pub mod random;

pub use acceptance::Acceptance;
pub use lattice::reflect_index;
pub use model::Ising;
