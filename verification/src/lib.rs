//! Report engine for tabular financial exports.
//!
//! The library ingests a byte buffer holding a comma-separated export of
//! dividend or realized profit-and-loss statements, decodes it (UTF-8 with a
//! Shift_JIS fallback), parses it into rows of string fields, coerces the rows
//! into typed records, groups the records by a report-specific date key, and
//! renders the grouped data as an annotated HTML table fragment.

pub mod common;
pub mod csv;
pub mod date;
pub mod decode;
pub mod dividend_list;
pub mod error;
pub mod factory;
pub mod grouping;
pub mod labels;
pub mod num;
pub mod profit_and_loss;
pub mod render;
pub mod text;

pub use error::ReportError;
pub use factory::{create_factory, process, TemplateManager};
