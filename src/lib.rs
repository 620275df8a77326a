//! Request composition for a CSRF-aware HTTP fuzzer: token extraction from a
//! preamble page, heterogeneous request parts with merge rules, `FUZZ`
//! substitution, response classification and the per-worker decision logic.

pub mod text;
pub mod tokens;
pub mod worker;
pub mod assoc;
pub mod error;
pub mod form;
pub mod json;
pub mod laws;
pub mod parts;
pub mod report;
pub mod request;
pub mod settings;
