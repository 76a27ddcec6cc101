//! Spreadsheet cells and how each kind of cell is read as text.

use crate::text::{signed_decimal, signed_decimal_string};
use vstd::prelude::*;
use vstd::string::*;

verus! {

/// A floating-point number as far as the conversion reads it.
///
/// `integral` is `Some(i)` when the number has no fractional part, `i` being
/// the number as a 64-bit integer; `text` is the number in plain decimal
/// notation.
#[derive(Debug, Clone, PartialEq, Eq)]
pub struct FloatValue {
    pub integral: Option<i64>,
    pub text: String,
}

/// The error that a cell may hold in place of a value.
#[derive(Debug, Clone, Copy, PartialEq, Eq)]
pub enum CellError {
    Div0,
    NA,
    Name,
    Null,
    Num,
    Ref,
    Value,
    GettingData,
}

/// One cell of a sheet.
#[derive(Debug, Clone, PartialEq, Eq)]
pub enum Cell {
    Int(i64),
    Float(FloatValue),
    Text(String),
    Bool(bool),
    /// A date or time, given as the text of its serial number.
    DateTime(String),
    /// A date or time in ISO 8601 notation.
    DateTimeIso(String),
    /// A duration in ISO 8601 notation.
    DurationIso(String),
    Error(CellError),
    Empty,
}

/// The model of a `FloatValue`.
pub struct FloatModel {
    pub integral: Option<i64>,
    pub text: Seq<char>,
}

/// The model of a `Cell`.
pub enum CellModel {
    Int(i64),
    Float(FloatModel),
    Text(Seq<char>),
    Bool(bool),
    DateTime(Seq<char>),
    DateTimeIso(Seq<char>),
    DurationIso(Seq<char>),
    Error(CellError),
    Empty,
}

impl View for FloatValue {
    type V = FloatModel;

    open spec fn view(&self) -> FloatModel {
        FloatModel { integral: self.integral, text: self.text@ }
    }
}

impl View for Cell {
    type V = CellModel;

    open spec fn view(&self) -> CellModel {
        match self {
            Cell::Int(i) => CellModel::Int(*i),
            Cell::Float(f) => CellModel::Float(f@),
            Cell::Text(s) => CellModel::Text(s@),
            Cell::Bool(b) => CellModel::Bool(*b),
            Cell::DateTime(s) => CellModel::DateTime(s@),
            Cell::DateTimeIso(s) => CellModel::DateTimeIso(s@),
            Cell::DurationIso(s) => CellModel::DurationIso(s@),
            Cell::Error(e) => CellModel::Error(*e),
            Cell::Empty => CellModel::Empty,
        }
    }
}

/// The models of the cells of one row.
pub open spec fn cell_views(row: Seq<Cell>) -> Seq<CellModel> {
    Seq::new(row.len(), |i: int| row[i]@)
}

/// The models of the rows of a sheet.
pub open spec fn sheet_view(sheet: Seq<Vec<Cell>>) -> Seq<Seq<CellModel>> {
    Seq::new(sheet.len(), |i: int| cell_views(sheet[i]@))
}

/// A number as text: a whole number as a plain integer, without a decimal
/// point; any other number in its decimal notation.
pub open spec fn number_text(number: FloatModel) -> Seq<char> {
    match number.integral {
        Some(i) => signed_decimal(i as int),
        None => number.text,
    }
}

/// The name by which an error is shown.
pub open spec fn error_tag(error: CellError) -> Seq<char> {
    match error {
        CellError::Div0 => "Div0"@,
        CellError::NA => "NA"@,
        CellError::Name => "Name"@,
        CellError::Null => "Null"@,
        CellError::Num => "Num"@,
        CellError::Ref => "Ref"@,
        CellError::Value => "Value"@,
        CellError::GettingData => "GettingData"@,
    }
}

/// A cell as text. Text is kept as it is, numbers follow `number_text`, a
/// boolean is `true` or `false`, an error is its tag, and an empty cell is
/// the empty text.
pub open spec fn cell_text(cell: CellModel) -> Seq<char> {
    match cell {
        CellModel::Int(i) => signed_decimal(i as int),
        CellModel::Float(f) => number_text(f),
        CellModel::Text(s) => s,
        CellModel::Bool(b) => if b {
            "true"@
        } else {
            "false"@
        },
        CellModel::DateTime(s) => s,
        CellModel::DateTimeIso(s) => s,
        CellModel::DurationIso(s) => s,
        CellModel::Error(e) => error_tag(e),
        CellModel::Empty => Seq::empty(),
    }
}

/// The text of the cell at `index`; the empty text past the end of the row.
pub open spec fn cell_at(row: Seq<CellModel>, index: int) -> Seq<char> {
    if 0 <= index < row.len() {
        cell_text(row[index])
    } else {
        Seq::empty()
    }
}

/// Renders a number as `number_text` says.
pub fn number_to_string(number: &FloatValue) -> (out: String)
    ensures
        out@ == number_text(number@),
{
    match number.integral {
        Some(i) => signed_decimal_string(i),
        None => number.text.clone(),
    }
}

fn error_to_string(error: CellError) -> (out: String)
    ensures
        out@ == error_tag(error),
{
    match error {
        CellError::Div0 => String::from_str("Div0"),
        CellError::NA => String::from_str("NA"),
        CellError::Name => String::from_str("Name"),
        CellError::Null => String::from_str("Null"),
        CellError::Num => String::from_str("Num"),
        CellError::Ref => String::from_str("Ref"),
        CellError::Value => String::from_str("Value"),
        CellError::GettingData => String::from_str("GettingData"),
    }
}

/// Reads a cell as text.
pub fn cell_to_string(cell: &Cell) -> (out: String)
    ensures
        out@ == cell_text(cell@),
{
    match cell {
        Cell::Int(i) => signed_decimal_string(*i),
        Cell::Float(f) => number_to_string(f),
        Cell::Text(s) => s.clone(),
        Cell::Bool(b) => if *b {
            String::from_str("true")
        } else {
            String::from_str("false")
        },
        Cell::DateTime(s) => s.clone(),
        Cell::DateTimeIso(s) => s.clone(),
        Cell::DurationIso(s) => s.clone(),
        Cell::Error(e) => error_to_string(*e),
        Cell::Empty => String::new(),
    }
}

/// Reads the cell at `index` as text. A row that ends before `index` gives
/// the empty text.
pub fn get_cell(row: &[Cell], index: usize) -> (out: String)
    ensures
        out@ == cell_at(cell_views(row@), index as int),
{
    if index < row.len() {
        cell_to_string(&row[index])
    } else {
        String::new()
    }
}

} // verus!
