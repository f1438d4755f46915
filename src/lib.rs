//! Fuel requirements for module masses: a whitespace-separated list of
//! integer masses is parsed, each mass is mapped through a fuel formula,
//! and the results are summed.

pub mod fuel;
pub mod parse;
pub mod solution;
