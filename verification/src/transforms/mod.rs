//! Transformations between languages.
pub mod bbf_opt;
pub mod bbf_to_bf;
pub mod bf_to_bbf;
pub mod laws;
pub mod merge_laws;
pub mod simp_laws;
pub mod simp_semantics;
pub mod simp_to_bf;
