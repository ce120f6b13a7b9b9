//! Ready-made parts built on the combiner.

pub mod display;
