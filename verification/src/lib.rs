//! Feature flag evaluation for the flagd OpenFeature provider: flag
//! configuration model and parsing, targeting operators, flag resolution,
//! caches and connection settings.

pub mod env_var;
pub mod error;
pub mod cache;
pub mod evaluation;
pub mod json;
pub mod json_text;
pub mod model;
pub mod options;
pub mod otel;
pub mod resolver;
pub mod retry;
pub mod storage;
pub mod targeting;
pub mod text;
pub mod value;
