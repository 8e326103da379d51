//! Targeting operators of the flagd rule language and the data that rules
//! are evaluated against.

pub mod context;
pub mod fractional;
pub mod outcome;
pub mod rule;
pub mod semver;
pub mod string_comp;
