//! Turns a spreadsheet of raw order lines into normalised shipping orders.
//!
//! A sheet is a list of rows of cells whose first row holds the column
//! titles. A mapping table says which columns feed each field of an order.
//! The conversion builds one order per data row, drops the orders without a
//! recipient, sorts the rest by recipient and marks the recipients that occur
//! more than once. A merge then collapses the orders of one recipient into
//! one, and an export writes the orders into a worksheet.
//!
//! The library holds no floating-point numbers. A float cell comes in as a
//! `FloatValue`, and the arithmetic of numeric mappings is done by a function
//! that the caller hands in; which values count as numbers, and what is
//! written when none does, is decided here.

pub mod cell;
pub mod column;
pub mod convert;
pub mod error;
pub mod export;
pub mod group;
pub mod mapping;
pub mod merge;
pub mod number;
pub mod order;
pub mod row;
pub mod session;
pub mod text;

pub use cell::{cell_to_string, get_cell, Cell, CellError, FloatValue};
pub use column::{index_to_column_code, read_columns, ColumnInfo};
pub use convert::{
    convert_row, convert_rows, legacy_mappings, read_and_convert, read_and_convert_with_mapping,
};
pub use error::{export_summary, Request, SheetError, WriteStep};
pub use export::write_output;
pub use group::{group_duplicates, sort_rows, ConversionResult};
pub use mapping::{apply_operation, ColumnMapping, Field, MappingTable, Operation};
pub use merge::merge_duplicates;
pub use number::is_float_literal;
pub use row::ConvertedRow;
pub use session::Session;
