//! Export values from a TOML-shaped configuration tree as bash `declare`
//! statements.
//!
//! The library works on its own [`value::Value`] tree. Reading input, parsing
//! TOML and writing output are left to the surrounding program; the logic
//! here — path resolution, type-directed formatting and shell escaping — is
//! verified.

pub mod atom;
pub mod escape;
pub mod export;
pub mod format;
pub mod resolve;
pub mod value;
