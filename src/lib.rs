//! Layout-exact source generation from a host's reflection data.
//!
//! The host describes every class, struct, enum, property and function with
//! sizes, alignments, offsets and flags. This crate turns those descriptions
//! into declarations whose layout matches the host's memory byte for byte,
//! and proves the layout rules that the emitted text relies on.
pub mod text;
pub mod names;
pub mod host;
pub mod enums;
pub mod error;
pub mod layout;
pub mod layout_laws;
pub mod printer;
pub mod emit;
pub mod functions;
pub mod generator;
