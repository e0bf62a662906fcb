//! One invoice, put together from four tables, written into a document and
//! handed on to the accounts.

pub mod args;
pub mod csv;
pub mod date;
pub mod error;
pub mod html;
pub mod invoice;
pub mod json;
pub mod text;

pub use crate::csv::read_invoice;
