//! The bookkeeping behind a declared view: which items an `impl` of a widget
//! holds, which properties of which widgets depend on which fields of the
//! model, and which widgets the generated struct has to keep.
//!
//! Everything here works on names and positions. Reading the source of an
//! `impl` and writing the generated one is left to the caller.

pub mod property;
pub mod state;
pub mod tree;
