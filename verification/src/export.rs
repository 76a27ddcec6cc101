//! Writing orders into a worksheet: a fixed header line, then one line per
//! order.

use crate::cell::{cell_at, CellModel};
use crate::error::{SheetError, WriteStep};
use crate::row::{row_views, ConvertedRow, RowModel};
use rust_xlsxwriter::Worksheet;
use vstd::prelude::*;
use vstd::string::*;

verus! {

/// The worksheet of rust_xlsxwriter, of which only the name and the text
/// cells are spoken of here.
#[verifier::external_type_specification]
#[verifier::external_body]
pub struct ExWorksheet(rust_xlsxwriter::Worksheet);

/// The text cells that a worksheet holds, by row and column.
pub uninterp spec fn sheet_cells(sheet: Worksheet) -> Map<(int, int), Seq<char>>;

/// The name of a worksheet.
pub uninterp spec fn sheet_title(sheet: Worksheet) -> Seq<char>;

/// The number of rows that a worksheet can hold.
pub const SHEET_ROWS: u32 = 1_048_576;

/// The number of columns that a worksheet can hold.
pub const SHEET_COLUMNS: u16 = 16_384;

/// The number of characters that a text cell can hold.
pub const CELL_CHARS: usize = 32_767;

/// Whether `c` may not stand in the name of a worksheet.
pub open spec fn forbidden_in_name(c: char) -> bool {
    c == '*' || c == '?' || c == ':' || c == '[' || c == ']' || c == '\\' || c == '/'
}

/// Whether a worksheet takes `name` as its name: 1 to 31 characters, none of
/// them forbidden, and no apostrophe at either end.
pub open spec fn valid_sheet_name(name: Seq<char>) -> bool {
    &&& 0 < name.len() <= 31
    &&& forall|i: int| 0 <= i < name.len() ==> !forbidden_in_name(#[trigger] name[i])
    &&& name.first() != '\''
    &&& name.last() != '\''
}

/// The cells of a worksheet after `text` is written at `row` and `col`, or
/// `None` where the worksheet refuses the write. The empty text is never
/// refused and changes nothing. Any other text is refused outside the
/// worksheet's rows and columns and when it is longer than a cell can hold;
/// else it takes the place of whatever the cell held.
pub open spec fn text_written(
    cells: Map<(int, int), Seq<char>>,
    row: int,
    col: int,
    text: Seq<char>,
) -> Option<Map<(int, int), Seq<char>>> {
    if text.len() == 0 {
        Some(cells)
    } else if row >= SHEET_ROWS || col >= SHEET_COLUMNS || text.len() > CELL_CHARS {
        None
    } else {
        Some(cells.insert((row, col), text))
    }
}

/// `Worksheet::set_name` of rust_xlsxwriter. It takes the name exactly when
/// the name is valid, and refuses it otherwise, leaving the worksheet's name
/// as it was; the error comes back as its text. The cells stay as they are.
#[verifier::external_body]
fn name_sheet(sheet: &mut Worksheet, name: &str) -> (res: Result<(), String>)
    ensures
        res.is_ok() == valid_sheet_name(name@),
        sheet_title(*final(sheet)) == if valid_sheet_name(name@) {
            name@
        } else {
            sheet_title(*old(sheet))
        },
        sheet_cells(*final(sheet)) == sheet_cells(*old(sheet)),
{
    match sheet.set_name(name) {
        Ok(_) => Ok(()),
        Err(error) => Err(error.to_string()),
    }
}

/// `Worksheet::write_string` of rust_xlsxwriter. The cells change as
/// `text_written` says, and the call fails exactly where that gives `None`,
/// leaving the cells as they were; the error comes back as its text. The
/// worksheet's name stays as it is.
#[verifier::external_body]
fn put_text(sheet: &mut Worksheet, row: u32, col: u16, text: &str) -> (res: Result<(), String>)
    ensures
        match text_written(sheet_cells(*old(sheet)), row as int, col as int, text@) {
            Some(cells) => res.is_ok() && sheet_cells(*final(sheet)) == cells,
            None => res.is_err() && sheet_cells(*final(sheet)) == sheet_cells(*old(sheet)),
        },
        sheet_title(*final(sheet)) == sheet_title(*old(sheet)),
{
    match sheet.write_string(row, col, text) {
        Ok(_) => Ok(()),
        Err(error) => Err(error.to_string()),
    }
}

/// The name of the output sheet.
pub open spec fn output_sheet_name() -> Seq<char> {
    "工作表1"@
}

/// The titles of the seven output columns.
pub open spec fn header_titles() -> Seq<Seq<char>> {
    seq![
        "收件人姓名（必填）"@,
        "收件人手机号（必填）"@,
        "收货地址（必填）"@,
        "商品名称(必填) -- 多商品用\"；\"隔开"@,
        "商品规格(非必填) -- 多商品用\"；\"隔开"@,
        "商品数量(必填) -- 多商品用\"；\"隔开"@,
        "备注（非必填）"@,
    ]
}

/// The seven fields of an order, in the order of the output columns.
pub open spec fn fields_of(row: RowModel) -> Seq<Seq<char>> {
    seq![
        row.recipient_name,
        row.recipient_phone,
        row.delivery_address,
        row.product_name,
        row.product_spec,
        row.quantity,
        row.remarks,
    ]
}

/// The lines of the output sheet: the header, then one line per order.
pub open spec fn output_lines(rows: Seq<RowModel>) -> Seq<Seq<Seq<char>>> {
    Seq::new(
        rows.len() + 1,
        |i: int|
            if i == 0 {
                header_titles()
            } else {
                fields_of(rows[i - 1])
            },
    )
}

/// Whether `lines` has a text at the place `at`, and not the empty one.
pub open spec fn filled(lines: Seq<Seq<Seq<char>>>, at: (int, int)) -> bool {
    &&& 0 <= at.0 < lines.len()
    &&& 0 <= at.1 < lines[at.0].len()
    &&& lines[at.0][at.1].len() > 0
}

/// Whether a worksheet has room for the text of `lines` at the place `at`.
pub open spec fn fits(lines: Seq<Seq<Seq<char>>>, at: (int, int)) -> bool {
    at.0 < SHEET_ROWS && at.1 < SHEET_COLUMNS && lines[at.0][at.1].len() <= CELL_CHARS
}

/// Whether a worksheet has room for every text of `lines`.
pub open spec fn exportable(lines: Seq<Seq<Seq<char>>>) -> bool {
    forall|at: (int, int)| #[trigger] filled(lines, at) ==> fits(lines, at)
}

/// Whether the place `at` comes before column `col` of row `row`, reading
/// row by row.
pub open spec fn before(at: (int, int), row: int, col: int) -> bool {
    at.0 < row || (at.0 == row && at.1 < col)
}

/// The cells of a worksheet that held `cells`, once the texts of `lines`
/// before column `col` of row `row` are written: each of them that is not
/// empty sits at its place, and every other cell is as it was.
pub open spec fn lines_written_upto(
    cells: Map<(int, int), Seq<char>>,
    lines: Seq<Seq<Seq<char>>>,
    row: int,
    col: int,
) -> Map<(int, int), Seq<char>> {
    Map::new(
        |at: (int, int)| cells.dom().contains(at) || (filled(lines, at) && before(at, row, col)),
        |at: (int, int)|
            if filled(lines, at) && before(at, row, col) {
                lines[at.0][at.1]
            } else {
                cells[at]
            },
    )
}

/// The cells of a worksheet that held `cells`, once all of `lines` is
/// written.
pub open spec fn lines_written(
    cells: Map<(int, int), Seq<char>>,
    lines: Seq<Seq<Seq<char>>>,
) -> Map<(int, int), Seq<char>> {
    lines_written_upto(cells, lines, lines.len() as int, 0)
}

/// Whether `at` is the first place, reading row by row, whose text the
/// worksheet has no room for.
pub open spec fn first_unfit(lines: Seq<Seq<Seq<char>>>, at: (int, int)) -> bool {
    &&& filled(lines, at)
    &&& !fits(lines, at)
    &&& forall|other: (int, int)| #[trigger]
        filled(lines, other) && before(other, at.0, at.1) ==> fits(lines, other)
}

/// Every header title has between 1 and 40 characters.
pub proof fn lemma_header_titles()
    ensures
        header_titles().len() == 7,
        forall|col: int| 0 <= col < 7 ==> 0 < (#[trigger] header_titles()[col]).len() <= 40,
{
    reveal_strlit("收件人姓名（必填）");
    reveal_strlit("收件人手机号（必填）");
    reveal_strlit("收货地址（必填）");
    reveal_strlit("商品名称(必填) -- 多商品用\"；\"隔开");
    reveal_strlit("商品规格(非必填) -- 多商品用\"；\"隔开");
    reveal_strlit("商品数量(必填) -- 多商品用\"；\"隔开");
    reveal_strlit("备注（非必填）");
}

/// An exported sheet reads back with the header titles: where the seven
/// cells of a first row hold, as text, what an export has written into row 0,
/// the text of each cell is the title of its column.
pub proof fn lemma_header_reads_back(
    cells: Map<(int, int), Seq<char>>,
    rows: Seq<RowModel>,
    header: Seq<CellModel>,
)
    requires
        header.len() == 7,
        forall|col: int|
            0 <= col < 7 ==> #[trigger] header[col] == CellModel::Text(
                lines_written(cells, output_lines(rows))[(0, col)],
            ),
    ensures
        forall|col: int| 0 <= col < 7 ==> #[trigger] cell_at(header, col) == header_titles()[col],
{
    lemma_header_titles();
    let lines = output_lines(rows);
    assert forall|col: int| 0 <= col < 7 implies #[trigger] cell_at(header, col)
        == header_titles()[col] by {
        assert(lines[0] == header_titles());
        assert(filled(lines, (0, col)));
        assert(before((0, col), lines.len() as int, 0));
    }
}

fn header_title(col: usize) -> (title: &'static str)
    requires
        col < 7,
    ensures
        title@ == header_titles()[col as int],
{
    match col {
        0 => "收件人姓名（必填）",
        1 => "收件人手机号（必填）",
        2 => "收货地址（必填）",
        3 => "商品名称(必填) -- 多商品用\"；\"隔开",
        4 => "商品规格(非必填) -- 多商品用\"；\"隔开",
        5 => "商品数量(必填) -- 多商品用\"；\"隔开",
        _ => "备注（非必填）",
    }
}

fn field_text(row: &ConvertedRow, col: usize) -> (text: &str)
    requires
        col < 7,
    ensures
        text@ == fields_of(row@)[col as int],
{
    match col {
        0 => row.recipient_name.as_str(),
        1 => row.recipient_phone.as_str(),
        2 => row.delivery_address.as_str(),
        3 => row.product_name.as_str(),
        4 => row.product_spec.as_str(),
        5 => row.quantity.as_str(),
        _ => row.remarks.as_str(),
    }
}

/// Writes the text of column `col` of line `line`, all texts before it
/// being written.
fn write_cell(
    sheet: &mut Worksheet,
    line: usize,
    col: usize,
    text: &str,
    Ghost(cells): Ghost<Map<(int, int), Seq<char>>>,
    Ghost(lines): Ghost<Seq<Seq<Seq<char>>>>,
) -> (res: Result<(), String>)
    requires
        col < 7,
        line < lines.len(),
        lines[line as int].len() == 7,
        text@ == lines[line as int][col as int],
        sheet_cells(*old(sheet)) == lines_written_upto(cells, lines, line as int, col as int),
    ensures
        sheet_title(*final(sheet)) == sheet_title(*old(sheet)),
        res.is_ok() == (filled(lines, (line as int, col as int)) ==> fits(
            lines,
            (line as int, col as int),
        )),
        res.is_ok() ==> sheet_cells(*final(sheet)) == lines_written_upto(
            cells,
            lines,
            line as int,
            col + 1,
        ),
        res.is_err() ==> sheet_cells(*final(sheet)) == sheet_cells(*old(sheet)),
{
    let row: u32 = if line > 0xffff_ffff {
        0xffff_ffff
    } else {
        line as u32
    };
    let res = put_text(sheet, row, col as u16, text);
    proof {
        if res.is_ok() {
            assert(sheet_cells(*sheet) =~= lines_written_upto(
                cells,
                lines,
                line as int,
                col + 1,
            ));
        }
    }
    res
}

/// Writes the orders into `sheet`: names it, writes the header line into its
/// first row and every order into the row below the one before.
///
/// The write succeeds exactly when the worksheet has room for every text.
/// Then each text that is not empty sits in its cell, and all other cells
/// are as they were. Otherwise it stops at the first text, reading row by
/// row, that the worksheet has no room for; that text is a field of an
/// order, and the worksheet holds what was written before it.
pub fn write_output(rows: &[ConvertedRow], sheet: &mut Worksheet) -> (res: Result<(), SheetError>)
    ensures
        match res {
            Ok(_) => {
                &&& exportable(output_lines(row_views(rows@)))
                &&& sheet_title(*final(sheet)) == output_sheet_name()
                &&& sheet_cells(*final(sheet)) == lines_written(
                    sheet_cells(*old(sheet)),
                    output_lines(row_views(rows@)),
                )
            },
            Err(error) => {
                &&& !exportable(output_lines(row_views(rows@)))
                &&& error matches SheetError::Write(WriteStep::Row, _)
                &&& sheet_title(*final(sheet)) == output_sheet_name()
                &&& exists|at: (int, int)| #[trigger]
                    first_unfit(output_lines(row_views(rows@)), at) && sheet_cells(*final(sheet))
                        == lines_written_upto(
                        sheet_cells(*old(sheet)),
                        output_lines(row_views(rows@)),
                        at.0,
                        at.1,
                    )
            },
        },
{
    let ghost cells = sheet_cells(*sheet);
    let ghost lines = output_lines(row_views(rows@));
    proof {
        reveal_strlit("工作表1");
        lemma_header_titles();
        assert(valid_sheet_name("工作表1"@));
    }
    match name_sheet(sheet, "工作表1") {
        Ok(_) => {},
        Err(detail) => {
            return Err(SheetError::Write(WriteStep::SheetName, detail));
        },
    }
    proof {
        assert(sheet_cells(*sheet) =~= lines_written_upto(cells, lines, 0, 0));
    }
    let mut col: usize = 0;
    while col < 7
        invariant
            col <= 7,
            lines == output_lines(row_views(rows@)),
            sheet_title(*sheet) == output_sheet_name(),
            sheet_cells(*sheet) == lines_written_upto(cells, lines, 0, col as int),
            forall|at: (int, int)| #[trigger] filled(lines, at) && before(at, 0, col as int) ==> fits(lines, at),
        decreases 7 - col,
    {
        proof {
            lemma_header_titles();
        }
        match write_cell(sheet, 0, col, header_title(col), Ghost(cells), Ghost(lines)) {
            Ok(_) => {},
            Err(detail) => {
                return Err(SheetError::Write(WriteStep::Header, detail));
            },
        }
        col += 1;
    }
    let count = rows.len();
    let mut i: usize = 0;
    proof {
        assert(lines_written_upto(cells, lines, 0, 7) =~= lines_written_upto(cells, lines, 1, 0));
    }
    while i < count
        invariant
            i <= count,
            count == rows@.len(),
            cells == sheet_cells(*old(sheet)),
            lines == output_lines(row_views(rows@)),
            sheet_title(*sheet) == output_sheet_name(),
            sheet_cells(*sheet) == lines_written_upto(cells, lines, i + 1, 0),
            forall|at: (int, int)| #[trigger] filled(lines, at) && before(at, i + 1, 0) ==> fits(lines, at),
        decreases rows@.len() - i,
    {
        let mut col: usize = 0;
        while col < 7
            invariant
                col <= 7,
                i < count,
                count == rows@.len(),
                cells == sheet_cells(*old(sheet)),
                lines == output_lines(row_views(rows@)),
                sheet_title(*sheet) == output_sheet_name(),
                sheet_cells(*sheet) == lines_written_upto(cells, lines, i + 1, col as int),
                forall|at: (int, int)| #[trigger] filled(lines, at) && before(at, i + 1, col as int) ==> fits(lines, at),
            decreases 7 - col,
        {
            match write_cell(sheet, i + 1, col, field_text(&rows[i], col), Ghost(cells), Ghost(lines)) {
                Ok(_) => {},
                Err(detail) => {
                    proof {
                        let at = (i as int + 1, col as int);
                        assert(filled(lines, at));
                        assert(first_unfit(lines, at));
                        assert(sheet_cells(*sheet) == lines_written_upto(cells, lines, at.0, at.1));
                    }
                    return Err(SheetError::Write(WriteStep::Row, detail));
                },
            }
            col += 1;
        }
        proof {
            assert(lines_written_upto(cells, lines, i + 1, 7) =~= lines_written_upto(cells, lines, i + 2, 0));
        }
        i += 1;
    }
    proof {
        assert forall|at: (int, int)| #[trigger] filled(lines, at) implies fits(lines, at) by {
            assert(before(at, rows@.len() as int + 1, 0));
        }
    }
    Ok(())
}

} // verus!
