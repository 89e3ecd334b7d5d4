//! Interprocedural taint and escape analysis for memory handed across a
//! foreign-function boundary.
//!
//! The abstract domain (`lattice`, `block_state`, `domain`), the catalogue of
//! known symbols (`known_names`), the per-block transfer functions
//! (`block_visitor`) and the fixpoint solver (`taint_analysis`) work on a small
//! model of the low-level IR (`ir`), which a loader fills in.
pub mod lattice;
pub mod name;
pub mod block_state;
pub mod join;
pub mod text;
pub mod known_names;
pub mod diagnosis;
pub mod ir;
pub mod domain;
pub mod summary;
pub mod option;
pub mod context;
pub mod block_visitor;
pub mod taint_analysis;
