//! A property-based testing engine in the QuickCheck tradition.
//!
//! A property is a predicate over one or more typed inputs.  The engine
//! repeatedly samples random inputs of growing size and, on the first
//! counterexample, performs a directed search through simpler candidate
//! values to report a minimal failing input.

pub mod arbitrary;
pub mod kvmap;
pub mod lazy;
pub mod model;
pub mod qc;
pub mod rng;
pub mod shrink;

pub use arbitrary::Arbitrary;
pub use kvmap::KvMap;
pub use lazy::Lazy;
pub use model::Model;
pub use qc::{quick_check, quick_check_occurs, quick_shrink, QConfig, QcResult};
pub use rng::Rng;
pub use shrink::Shrink;
