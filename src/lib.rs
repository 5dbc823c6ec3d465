//! Structural equivalence of type declarations, up to cosmetic differences.
pub mod tokens;
pub mod mismatch;
pub mod attrs;
pub mod decl;
pub mod oracle;
pub mod laws;
