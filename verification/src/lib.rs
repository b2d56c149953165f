//! Generation of a fixed, cross-language memory representation for the
//! structural data types of a source language: records and tag unions,
//! including self-referential ones.
//!
//! The pipeline runs in one direction. A [`types::TypeArena`] owns the graph
//! of structural types; [`names`] assigns every composite type a unique,
//! deterministic name; [`layout`] classifies each type into a representation
//! strategy and fixes the physical order of its slots; [`caps`] decides which
//! derivable operation capabilities a representation may soundly carry; and
//! [`emit`] renders the declarations and their operation sets as text.
//!
//! [`laws`] states and proves the guarantees that span several stages:
//! slot ordering, discriminant assignment, determinism and idempotence.
//! [`diagnostics`] holds the small fixed texts and line-scanning helpers
//! used when parse problems in the source language are reported.

pub mod caps;
pub mod decimal;
pub mod laws;
pub mod layout;
pub mod names;
pub mod diagnostics;
pub mod emit;
pub mod order;
pub mod types;
