use calamine::{Data, Reader, Xlsx};
use ordersheet::{
    export_summary, read_columns, write_output, Cell, CellError, ConvertedRow, FloatValue,
    SheetError, WriteStep,
};
use rust_xlsxwriter::Workbook;
use std::io::Cursor;

fn titles() -> Vec<&'static str> {
    vec![
        "收件人姓名（必填）",
        "收件人手机号（必填）",
        "收货地址（必填）",
        "商品名称(必填) -- 多商品用\"；\"隔开",
        "商品规格(非必填) -- 多商品用\"；\"隔开",
        "商品数量(必填) -- 多商品用\"；\"隔开",
        "备注（非必填）",
    ]
}

fn order(fields: [&str; 7]) -> ConvertedRow {
    ConvertedRow {
        recipient_name: fields[0].to_string(),
        recipient_phone: fields[1].to_string(),
        delivery_address: fields[2].to_string(),
        product_name: fields[3].to_string(),
        product_spec: fields[4].to_string(),
        quantity: fields[5].to_string(),
        remarks: fields[6].to_string(),
        group_id: 3,
    }
}

fn to_cell(data: &Data) -> Cell {
    match data {
        Data::Int(i) => Cell::Int(*i),
        Data::Float(f) => Cell::Float(FloatValue {
            integral: if *f == f.trunc() { Some(*f as i64) } else { None },
            text: format!("{}", f),
        }),
        Data::String(s) => Cell::Text(s.clone()),
        Data::Bool(b) => Cell::Bool(*b),
        Data::DateTime(d) => Cell::DateTime(format!("{}", d)),
        Data::DateTimeIso(s) => Cell::DateTimeIso(s.clone()),
        Data::DurationIso(s) => Cell::DurationIso(s.clone()),
        Data::Error(_) => Cell::Error(CellError::Value),
        Data::Empty => Cell::Empty,
    }
}

fn written(rows: &[ConvertedRow]) -> (String, Vec<Vec<Cell>>) {
    let mut workbook = Workbook::new();
    let sheet = workbook.add_worksheet();
    assert_eq!(write_output(rows, sheet), Ok(()));
    let bytes = workbook.save_to_buffer().unwrap();
    let mut book: Xlsx<_> = Xlsx::new(Cursor::new(bytes)).unwrap();
    let names = book.sheet_names();
    assert_eq!(names.len(), 1);
    let range = book.worksheet_range(&names[0]).unwrap();
    let cells = range.rows().map(|row| row.iter().map(to_cell).collect()).collect();
    (names[0].clone(), cells)
}

#[test]
fn exported_headers_read_back_as_column_titles() {
    let rows = vec![order(["张三", "138", "杭州", "茶", "绿", "2", "急"])];
    let (_, sheet) = written(&rows);
    let columns = read_columns(&sheet);
    let read: Vec<&str> = columns.iter().map(|c| c.title.as_str()).collect();
    assert_eq!(read, titles());
    let codes: Vec<&str> = columns.iter().map(|c| c.code.as_str()).collect();
    assert_eq!(codes, vec!["A", "B", "C", "D", "E", "F", "G"]);
}

#[test]
fn the_sheet_is_named_and_holds_header_and_orders() {
    let rows = vec![
        order(["张三", "138", "杭州", "茶；杯", "绿", "1；1", "急"]),
        order(["", "139", "", "", "", "", ""]),
        order(["李四", "", "上海 1 号", "书", "", "12", ""]),
    ];
    let (name, sheet) = written(&rows);
    assert_eq!(name, "工作表1");
    assert_eq!(sheet.len(), 4);
    let text = |s: &str| if s.is_empty() { Cell::Empty } else { Cell::Text(s.to_string()) };
    assert_eq!(sheet[0], titles().into_iter().map(text).collect::<Vec<Cell>>());
    assert_eq!(sheet[1], ["张三", "138", "杭州", "茶；杯", "绿", "1；1", "急"].map(text).to_vec());
    assert_eq!(sheet[2], ["", "139", "", "", "", "", ""].map(text).to_vec());
    assert_eq!(sheet[3], ["李四", "", "上海 1 号", "书", "", "12", ""].map(text).to_vec());
}

#[test]
fn no_orders_give_a_sheet_with_the_header_only() {
    let (name, sheet) = written(&[]);
    assert_eq!(name, "工作表1");
    assert_eq!(sheet.len(), 1);
    assert_eq!(read_columns(&sheet).len(), 7);
}

#[test]
fn earlier_cells_of_the_sheet_are_replaced_or_kept() {
    let mut workbook = Workbook::new();
    let sheet = workbook.add_worksheet();
    sheet.write_string(0, 0, "old title").unwrap();
    sheet.write_string(1, 1, "old phone").unwrap();
    sheet.write_string(5, 8, "aside").unwrap();
    let rows = vec![order(["new", "", "x", "", "", "", ""])];
    assert_eq!(write_output(&rows, sheet), Ok(()));
    let bytes = workbook.save_to_buffer().unwrap();
    let mut book: Xlsx<_> = Xlsx::new(Cursor::new(bytes)).unwrap();
    let range = book.worksheet_range("工作表1").unwrap();
    assert_eq!(range.get((0, 0)), Some(&Data::String(titles()[0].to_string())));
    assert_eq!(range.get((1, 0)), Some(&Data::String("new".to_string())));
    assert_eq!(range.get((1, 1)), Some(&Data::String("old phone".to_string())));
    assert_eq!(range.get((5, 8)), Some(&Data::String("aside".to_string())));
}

#[test]
fn a_text_longer_than_a_cell_fails_the_export() {
    let long = "长".repeat(32_768);
    let rows = vec![order(["a", "", "", "", "", "", ""]), order(["b", "", "", &long, "", "", ""])];
    let mut workbook = Workbook::new();
    let sheet = workbook.add_worksheet();
    match write_output(&rows, sheet) {
        Err(SheetError::Write(WriteStep::Row, detail)) => assert!(!detail.is_empty()),
        other => panic!("unexpected: {:?}", other),
    }
}

#[test]
fn the_longest_text_that_fits_is_written() {
    let long = "长".repeat(32_767);
    let rows = vec![order(["a", "", "", "", "", "", &long])];
    let (_, sheet) = written(&rows);
    assert_eq!(sheet[1][6], Cell::Text(long));
}

#[test]
fn export_failure_message() {
    let long = "x".repeat(40_000);
    let mut workbook = Workbook::new();
    let sheet = workbook.add_worksheet();
    let error = write_output(&[order([&long, "", "", "", "", "", ""])], sheet).unwrap_err();
    assert_eq!(error.message(), "写入失败: String exceeds Excel's limit of 32,767 characters.");
}

#[test]
fn export_summary_counts_the_orders() {
    assert_eq!(export_summary(0), "成功导出 0 条数据");
    assert_eq!(export_summary(1234), "成功导出 1234 条数据");
}
