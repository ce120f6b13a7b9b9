//! A declarative builder that assembles named sub-circuits ("schemes") of
//! logic units into one flat, placed and fully wired circuit.
//!
//! Every executable function of the crate carries a contract over the
//! mathematical views of the data it works on, and Verus proves each body
//! against its contract.

pub mod util;
pub mod connection;
pub mod slot;
pub mod shape;
pub mod scheme;
pub mod bind;
pub mod combiner;
pub mod positioner;
pub mod presets;
