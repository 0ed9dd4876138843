//! A verified periodic-table data compiler and lookup facade.
//!
//! The compiler normalizes a column-oriented reference dataset of the 118
//! chemical elements into typed records, resolves electron-configuration
//! shorthand, and builds immutable lookup tables: per-element arrays indexed
//! by a dense identifier, two alphabetically sorted index tables for binary
//! search by symbol or lowercased name, and one flat run-length-encoded
//! oxidation-state array. The facade answers lookups by identifier, atomic
//! number, symbol or name, and iterates the element set from either end.

pub mod config;
pub mod element;
pub mod error;
pub mod fields;
pub mod index;
pub mod iter;
pub mod laws;
pub mod lookup;
pub mod ox;
pub mod record;
pub mod table;
pub mod text;

pub use config::ElectronicConfiguration;
pub use element::Element;
pub use error::CompileError;
pub use fields::{GroupBlock, StateOfMatter};
pub use iter::{periodic_table, PeriodicTableIterator};
pub use record::Record;
pub use table::PeriodicTable;
