//! Formula evaluation for comma-separated tables.
//!
//! A table is a header row of column labels and a body of text cells. A cell
//! whose text starts with `= ` holds a formula (`SUM`, `AVG`, `CALC` or `IF`);
//! evaluating a table replaces every formula by its value or by a short
//! diagnostic. The number type and its primitive operations are supplied by
//! the caller as a [`number::Numbers`] bundle, and every contract states the
//! result over the bundle's mathematical model.
pub mod csv;
pub mod error;
pub mod number;
pub mod old_csv;
pub mod text;
