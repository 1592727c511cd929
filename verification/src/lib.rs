//! A verified view-computation engine for an interactive tabular-data viewer.
//!
//! The library turns a loaded dataset (columns and rows of text cells),
//! a chain of filter predicates, a list of sort keys and per-column
//! visibility modes into the final view: the ordered surviving rows and
//! an effective per-column visibility vector.

pub mod commands;
pub mod compose;
pub mod filter;
pub mod ingest;
pub mod model;
pub mod visibility;
pub mod order;
pub mod sort;
pub mod text;

pub use model::BooleanOp;
pub use model::ColumnVisibility;
pub use model::Filter;
pub use model::Model;
