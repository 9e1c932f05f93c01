//! Version vectors and dots: logical clocks that tell, of two observed states of
//! replicated data, whether one happened before the other or whether they are
//! concurrent.
//!
//! [`model`] holds the value algebra as specification functions over maps,
//! [`version_vector`] and [`dot`] the executable types, each proved against the
//! model, and [`laws`] the order and lattice laws of the algebra.

pub mod dot;
pub mod laws;
pub mod model;
pub mod version_vector;

pub use dot::Dot;
pub use version_vector::VersionVector;
