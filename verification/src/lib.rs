//! A generic two-dimensional table stored in a single flat buffer.
//!
//! A [`Table`](table::Table) keeps its elements in one contiguous `Vec`,
//! addressed either row-major or column-major depending on a mutable layout
//! tag. Columns carry names and free-form descriptions. Transposition is
//! constant-time: it flips the tag and swaps the dimensions without touching
//! the buffer. Every public operation carries a contract relating it to the
//! mathematical model in [`model`], and the laws in [`laws`] relate the
//! operations to one another.

pub mod laws;
pub mod model;
pub mod table;
pub mod text;

pub use table::Order;
pub use table::Table;
pub use table::TableError;
