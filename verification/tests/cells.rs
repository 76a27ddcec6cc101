use ordersheet::text::{decimal_string, join_strings, parse_usize, signed_decimal_string};
use ordersheet::{cell_to_string, get_cell, Cell, CellError, FloatValue};

fn float_value(f: f64) -> FloatValue {
    FloatValue {
        integral: if f == f.trunc() { Some(f as i64) } else { None },
        text: format!("{}", f),
    }
}

#[test]
fn text_cells_are_kept_as_they_are() {
    assert_eq!(cell_to_string(&Cell::Text(" 张三 ".to_string())), " 张三 ");
    assert_eq!(cell_to_string(&Cell::DateTimeIso("2024-01-02T03:04:05".to_string())), "2024-01-02T03:04:05");
    assert_eq!(cell_to_string(&Cell::DurationIso("PT1H".to_string())), "PT1H");
    assert_eq!(cell_to_string(&Cell::DateTime("45000.5".to_string())), "45000.5");
}

#[test]
fn whole_numbers_lose_their_decimal_point() {
    assert_eq!(cell_to_string(&Cell::Float(float_value(13800138000.0))), "13800138000");
    assert_eq!(cell_to_string(&Cell::Float(float_value(-4.0))), "-4");
    assert_eq!(cell_to_string(&Cell::Float(float_value(0.0))), "0");
    assert_eq!(cell_to_string(&Cell::Float(float_value(-0.0))), "0");
}

#[test]
fn other_numbers_keep_their_decimal_notation() {
    assert_eq!(cell_to_string(&Cell::Float(float_value(2.5))), "2.5");
    assert_eq!(cell_to_string(&Cell::Float(float_value(-0.125))), "-0.125");
    assert_eq!(cell_to_string(&Cell::Float(float_value(f64::NAN))), "NaN");
}

#[test]
fn huge_whole_numbers_stop_at_the_integer_range() {
    assert_eq!(cell_to_string(&Cell::Float(float_value(1e300))), "9223372036854775807");
    assert_eq!(cell_to_string(&Cell::Float(float_value(f64::NEG_INFINITY))), "-9223372036854775808");
}

#[test]
fn integers_booleans_errors_and_empty_cells() {
    assert_eq!(cell_to_string(&Cell::Int(42)), "42");
    assert_eq!(cell_to_string(&Cell::Int(-9223372036854775808)), "-9223372036854775808");
    assert_eq!(cell_to_string(&Cell::Int(9223372036854775807)), "9223372036854775807");
    assert_eq!(cell_to_string(&Cell::Bool(true)), "true");
    assert_eq!(cell_to_string(&Cell::Bool(false)), "false");
    assert_eq!(cell_to_string(&Cell::Empty), "");
    assert_eq!(cell_to_string(&Cell::Error(CellError::Div0)), "Div0");
    assert_eq!(cell_to_string(&Cell::Error(CellError::NA)), "NA");
    assert_eq!(cell_to_string(&Cell::Error(CellError::Name)), "Name");
    assert_eq!(cell_to_string(&Cell::Error(CellError::Null)), "Null");
    assert_eq!(cell_to_string(&Cell::Error(CellError::Num)), "Num");
    assert_eq!(cell_to_string(&Cell::Error(CellError::Ref)), "Ref");
    assert_eq!(cell_to_string(&Cell::Error(CellError::Value)), "Value");
    assert_eq!(cell_to_string(&Cell::Error(CellError::GettingData)), "GettingData");
}

#[test]
fn a_short_row_reads_as_empty_text() {
    let row = vec![Cell::Text("a".to_string()), Cell::Int(2)];
    assert_eq!(get_cell(&row, 0), "a");
    assert_eq!(get_cell(&row, 1), "2");
    assert_eq!(get_cell(&row, 2), "");
    assert_eq!(get_cell(&row, usize::MAX), "");
    assert_eq!(get_cell(&[], 0), "");
}

#[test]
fn decimal_rendering_matches_the_standard_library() {
    for n in [0u128, 1, 9, 10, 11, 99, 100, 12345, u64::MAX as u128, u128::MAX] {
        assert_eq!(decimal_string(n), n.to_string());
    }
    for i in [0i64, 1, -1, 10, -10, i64::MAX, i64::MIN, -123456789] {
        assert_eq!(signed_decimal_string(i), i.to_string());
    }
}

#[test]
fn unsigned_parsing_matches_the_standard_library() {
    let samples = [
        "", "+", "-", "0", "00", "007", "+7", "++7", "+-7", "-7", "-0", "7+", " 7", "7 ", "7.0",
        "1e3", "１２", "12a", "a12", "18446744073709551615", "18446744073709551616",
        "99999999999999999999999999", "+18446744073709551615", "4294967295", "4294967296",
        "0000000000000000000000000000000000001", "1_000",
    ];
    for text in samples {
        assert_eq!(parse_usize(text), text.parse::<usize>().ok(), "for {:?}", text);
    }
}

#[test]
fn joining_puts_the_separator_between_neighbours() {
    let parts = vec!["a".to_string(), "".to_string(), "c".to_string()];
    assert_eq!(join_strings(&parts, "；"), "a；；c");
    assert_eq!(join_strings(&parts[..1].to_vec(), "；"), "a");
    assert_eq!(join_strings(&Vec::new(), "；"), "");
}
