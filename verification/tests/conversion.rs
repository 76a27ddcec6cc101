use ordersheet::{
    convert_row, convert_rows, legacy_mappings, read_and_convert, read_and_convert_with_mapping,
    Cell, ColumnMapping, ConvertedRow, FloatValue, MappingTable, Operation,
};

fn float_value(f: f64) -> FloatValue {
    FloatValue {
        integral: if f == f.trunc() { Some(f as i64) } else { None },
        text: format!("{}", f),
    }
}

fn arithmetic(op: Operation, values: &Vec<String>) -> Option<FloatValue> {
    let numbers: Vec<f64> = values.iter().filter_map(|v| v.parse().ok()).collect();
    if numbers.is_empty() {
        return None;
    }
    let result = match op {
        Operation::Add => numbers.iter().sum::<f64>(),
        Operation::Subtract => numbers.iter().skip(1).fold(numbers[0], |acc, &x| acc - x),
        Operation::Multiply => numbers.iter().product::<f64>(),
        Operation::Divide => {
            numbers.iter().skip(1).fold(numbers[0], |acc, &x| if x != 0.0 { acc / x } else { acc })
        }
        Operation::Concat => return None,
    };
    Some(float_value(result))
}

fn text(s: &str) -> Cell {
    Cell::Text(s.to_string())
}

fn mapping(indices: &[usize], operation: &str) -> ColumnMapping {
    ColumnMapping { source_indices: indices.to_vec(), operation: operation.to_string() }
}

fn identity_table() -> MappingTable {
    let mut table = MappingTable::new();
    assert!(table.insert("recipient_name", mapping(&[0], "concat")));
    assert!(table.insert("recipient_phone", mapping(&[1], "concat")));
    assert!(table.insert("delivery_address", mapping(&[2], "concat")));
    table
}

fn header() -> Vec<Cell> {
    vec![text("name"), text("phone"), text("address"), text("product"), text("price"), text("count")]
}

#[test]
fn grouping_after_conversion() {
    let sheet = vec![
        header(),
        vec![text("A"), text("1"), text("X"), text("first")],
        vec![text("B"), text("2"), text("Y"), text("other")],
        vec![text("A"), text("1"), text("X"), text("second")],
    ];
    let mut table = identity_table();
    table.insert("product_name", mapping(&[3], "concat"));
    let result = read_and_convert_with_mapping(&sheet, &table, &arithmetic);
    assert_eq!(result.total_rows, 3);
    assert_eq!(result.duplicate_count, 2);
    assert!(result.has_duplicates);
    assert_eq!(result.rows[0].recipient_name, "A");
    assert_eq!(result.rows[1].recipient_name, "A");
    assert_eq!(result.rows[2].recipient_name, "B");
    assert_eq!(result.rows[0].product_name, "first");
    assert_eq!(result.rows[1].product_name, "second");
    assert!(result.rows[0].group_id > 0);
    assert_eq!(result.rows[0].group_id, result.rows[1].group_id);
    assert_eq!(result.rows[2].group_id, 0);
}

#[test]
fn rows_without_identity_are_left_out() {
    let sheet = vec![
        header(),
        vec![text(""), Cell::Empty, text(""), text("orphan")],
        vec![text(""), text(""), text("only an address"), text("kept")],
        vec![],
        vec![Cell::Empty, text("138"), Cell::Empty],
        vec![text("")],
    ];
    let mut table = identity_table();
    table.insert("product_name", mapping(&[3], "concat"));
    let result = read_and_convert_with_mapping(&sheet, &table, &arithmetic);
    assert_eq!(result.total_rows, 2);
    assert_eq!(result.rows.len(), 2);
    for row in &result.rows {
        assert!(!(row.recipient_name.is_empty() && row.recipient_phone.is_empty() && row.delivery_address.is_empty()));
    }
    assert_eq!(result.rows[0].delivery_address, "only an address");
    assert_eq!(result.rows[1].recipient_phone, "138");
}

#[test]
fn a_table_without_identity_mappings_keeps_no_row() {
    let sheet = vec![header(), vec![text("A"), text("1"), text("X"), text("p")]];
    let mut table = MappingTable::new();
    table.insert("product_name", mapping(&[3], "concat"));
    let result = read_and_convert_with_mapping(&sheet, &table, &arithmetic);
    assert!(result.rows.is_empty());
    assert_eq!(result.total_rows, 0);
    assert!(!result.has_duplicates);
}

#[test]
fn unmapped_fields_keep_their_defaults() {
    let sheet = vec![header(), vec![text("A"), text("1"), text("X"), text("p"), text("9")]];
    let result = read_and_convert_with_mapping(&sheet, &identity_table(), &arithmetic);
    assert_eq!(
        result.rows,
        vec![ConvertedRow {
            recipient_name: "A".to_string(),
            recipient_phone: "1".to_string(),
            delivery_address: "X".to_string(),
            product_name: String::new(),
            product_spec: String::new(),
            quantity: "1".to_string(),
            remarks: String::new(),
            group_id: 0,
        }]
    );
}

#[test]
fn unknown_field_names_are_refused() {
    let mut table = identity_table();
    let before = table.clone();
    assert!(!table.insert("recipient", mapping(&[3], "concat")));
    assert!(!table.insert("", mapping(&[3], "concat")));
    assert!(!table.insert("Quantity", mapping(&[3], "concat")));
    assert_eq!(table, before);
    assert!(table.insert("quantity", mapping(&[5], "concat")));
    assert!(table.insert("product_spec", mapping(&[4], "concat")));
    assert!(table.insert("remarks", mapping(&[3], "concat")));
    assert_eq!(table.quantity, Some(mapping(&[5], "concat")));
    assert_eq!(table.product_spec, Some(mapping(&[4], "concat")));
    assert_eq!(table.remarks, Some(mapping(&[3], "concat")));
    assert!(table.insert("quantity", mapping(&[4], "add")));
    assert_eq!(table.quantity, Some(mapping(&[4], "add")));
}

#[test]
fn mappings_combine_columns_in_the_given_order() {
    let sheet = vec![
        header(),
        vec![
            text("张三"),
            Cell::Float(float_value(13800138000.0)),
            text("杭州"),
            text("茶"),
            Cell::Float(float_value(2.5)),
            Cell::Int(4),
        ],
    ];
    let mut table = MappingTable::new();
    table.insert("recipient_name", mapping(&[0], "concat"));
    table.insert("recipient_phone", mapping(&[1], "concat"));
    table.insert("delivery_address", mapping(&[2, 0, 9, 2], "concat"));
    table.insert("product_name", mapping(&[3], "whatever"));
    table.insert("product_spec", mapping(&[], "concat"));
    table.insert("quantity", mapping(&[4, 5], "multiply"));
    table.insert("remarks", mapping(&[5, 4, 3], "subtract"));
    let row = convert_row(&sheet[1], &table, &arithmetic);
    assert_eq!(
        row,
        ConvertedRow {
            recipient_name: "张三".to_string(),
            recipient_phone: "13800138000".to_string(),
            delivery_address: "杭州张三杭州".to_string(),
            product_name: "茶".to_string(),
            product_spec: String::new(),
            quantity: "10".to_string(),
            remarks: "1.5".to_string(),
            group_id: 0,
        }
    );
}

#[test]
fn arithmetic_over_text_columns_leaves_the_field_empty() {
    let sheet = vec![header(), vec![text("A"), text("1"), text("X"), text("p")]];
    let mut table = identity_table();
    table.insert("quantity", mapping(&[0, 2, 3], "add"));
    let rows = convert_rows(&sheet, &table, &arithmetic);
    assert_eq!(rows.len(), 1);
    assert_eq!(rows[0].quantity, "");
}

#[test]
fn rows_are_converted_in_sheet_order_before_sorting() {
    let sheet = vec![
        header(),
        vec![text("C")],
        vec![text("")],
        vec![text("A")],
        vec![text("B")],
    ];
    let rows = convert_rows(&sheet, &identity_table(), &arithmetic);
    let names: Vec<&str> = rows.iter().map(|r| r.recipient_name.as_str()).collect();
    assert_eq!(names, vec!["C", "A", "B"]);
    let sorted = read_and_convert_with_mapping(&sheet, &identity_table(), &arithmetic);
    let names: Vec<&str> = sorted.rows.iter().map(|r| r.recipient_name.as_str()).collect();
    assert_eq!(names, vec!["A", "B", "C"]);
}

#[test]
fn the_header_row_gives_no_order() {
    let only_header = vec![vec![text("A"), text("1"), text("X")]];
    assert!(convert_rows(&only_header, &identity_table(), &arithmetic).is_empty());
    let nothing: Vec<Vec<Cell>> = Vec::new();
    assert!(convert_rows(&nothing, &identity_table(), &arithmetic).is_empty());
    assert_eq!(read_and_convert_with_mapping(&nothing, &identity_table(), &arithmetic).total_rows, 0);
}

fn legacy_line(name: &str, phone: Cell, address: &str, product: &str, remarks: &str) -> Vec<Cell> {
    let mut line = vec![Cell::Empty; 83];
    line[0] = text(remarks);
    line[64] = text(name);
    line[65] = phone;
    line[69] = text(address);
    line[82] = text(product);
    line
}

#[test]
fn legacy_layout_reads_its_fixed_columns() {
    let table = legacy_mappings();
    assert_eq!(table.recipient_name, Some(mapping(&[64], "concat")));
    assert_eq!(table.recipient_phone, Some(mapping(&[65], "concat")));
    assert_eq!(table.delivery_address, Some(mapping(&[69], "concat")));
    assert_eq!(table.product_name, Some(mapping(&[82], "concat")));
    assert_eq!(table.remarks, Some(mapping(&[0], "concat")));
    assert_eq!(table.product_spec, None);
    assert_eq!(table.quantity, None);
    let sheet = vec![
        vec![Cell::Empty; 83],
        legacy_line("王五", Cell::Float(float_value(13900000000.0)), "上海", "杯子", "易碎"),
        legacy_line("", Cell::Empty, "", "无主", ""),
        legacy_line("王五", Cell::Float(float_value(13900000000.0)), "上海", "盖子", ""),
        vec![text("short row")],
    ];
    let result = read_and_convert(&sheet);
    assert_eq!(result.total_rows, 2);
    assert_eq!(result.duplicate_count, 2);
    assert!(result.has_duplicates);
    assert_eq!(
        result.rows[0],
        ConvertedRow {
            recipient_name: "王五".to_string(),
            recipient_phone: "13900000000".to_string(),
            delivery_address: "上海".to_string(),
            product_name: "杯子".to_string(),
            product_spec: String::new(),
            quantity: "1".to_string(),
            remarks: "易碎".to_string(),
            group_id: 1,
        }
    );
    assert_eq!(result.rows[1].product_name, "盖子");
    assert_eq!(result.rows[1].group_id, 1);
}
