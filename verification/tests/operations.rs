use ordersheet::{apply_operation, Field, FloatValue, Operation};

fn float_value(f: f64) -> FloatValue {
    FloatValue {
        integral: if f == f.trunc() { Some(f as i64) } else { None },
        text: format!("{}", f),
    }
}

fn arithmetic(op: Operation, values: &Vec<String>) -> Option<FloatValue> {
    let numbers: Vec<f64> = values.iter().filter_map(|v| v.parse().ok()).collect();
    if numbers.is_empty() {
        return None;
    }
    let result = match op {
        Operation::Add => numbers.iter().sum::<f64>(),
        Operation::Subtract => numbers.iter().skip(1).fold(numbers[0], |acc, &x| acc - x),
        Operation::Multiply => numbers.iter().product::<f64>(),
        Operation::Divide => {
            numbers.iter().skip(1).fold(numbers[0], |acc, &x| if x != 0.0 { acc / x } else { acc })
        }
        Operation::Concat => return None,
    };
    Some(float_value(result))
}

fn never(_: Operation, _: &Vec<String>) -> Option<FloatValue> {
    panic!("concatenation needs no arithmetic")
}

fn texts(values: &[&str]) -> Vec<String> {
    values.iter().map(|v| v.to_string()).collect()
}

#[test]
fn operation_names() {
    assert_eq!(Operation::from_name("concat"), Operation::Concat);
    assert_eq!(Operation::from_name("add"), Operation::Add);
    assert_eq!(Operation::from_name("subtract"), Operation::Subtract);
    assert_eq!(Operation::from_name("multiply"), Operation::Multiply);
    assert_eq!(Operation::from_name("divide"), Operation::Divide);
    assert_eq!(Operation::from_name("Add"), Operation::Concat);
    assert_eq!(Operation::from_name(""), Operation::Concat);
    assert_eq!(Operation::from_name("modulo"), Operation::Concat);
}

#[test]
fn field_names() {
    assert_eq!(Field::from_name("recipient_name"), Some(Field::RecipientName));
    assert_eq!(Field::from_name("recipient_phone"), Some(Field::RecipientPhone));
    assert_eq!(Field::from_name("delivery_address"), Some(Field::DeliveryAddress));
    assert_eq!(Field::from_name("product_name"), Some(Field::ProductName));
    assert_eq!(Field::from_name("product_spec"), Some(Field::ProductSpec));
    assert_eq!(Field::from_name("quantity"), Some(Field::Quantity));
    assert_eq!(Field::from_name("remarks"), Some(Field::Remarks));
    assert_eq!(Field::from_name("group_id"), None);
    assert_eq!(Field::from_name("remark"), None);
    assert_eq!(Field::from_name("remarks "), None);
}

#[test]
fn concat_writes_values_one_after_another() {
    assert_eq!(apply_operation(texts(&["浙江省", "杭州市", "", "1 号"]), "concat", &never), "浙江省杭州市1 号");
    assert_eq!(apply_operation(texts(&["x"]), "concat", &never), "x");
}

#[test]
fn no_values_give_the_empty_text() {
    for name in ["concat", "add", "subtract", "multiply", "divide", "other"] {
        assert_eq!(apply_operation(Vec::new(), name, &never), "");
    }
}

#[test]
fn an_unknown_operation_concatenates() {
    assert_eq!(apply_operation(texts(&["1", "2"]), "sum", &never), "12");
    assert_eq!(apply_operation(texts(&["1", "2"]), "ADD", &never), "12");
}

#[test]
fn add_sums_what_parses() {
    assert_eq!(apply_operation(texts(&["2", "3"]), "add", &arithmetic), "5");
    assert_eq!(apply_operation(texts(&["2", "x", "0.5"]), "add", &arithmetic), "2.5");
    assert_eq!(apply_operation(texts(&["1.5", "1.5"]), "add", &arithmetic), "3");
}

#[test]
fn subtract_takes_the_rest_from_the_first() {
    assert_eq!(apply_operation(texts(&["10", "3", "2"]), "subtract", &arithmetic), "5");
    assert_eq!(apply_operation(texts(&["x", "10", "y", "0.5"]), "subtract", &arithmetic), "9.5");
    assert_eq!(apply_operation(texts(&["1", "3"]), "subtract", &arithmetic), "-2");
}

#[test]
fn multiply_gives_the_product() {
    assert_eq!(apply_operation(texts(&["4", "2.5"]), "multiply", &arithmetic), "10");
    assert_eq!(apply_operation(texts(&["0.5", "0.5"]), "multiply", &arithmetic), "0.25");
}

#[test]
fn divide_skips_zero_divisors() {
    assert_eq!(apply_operation(texts(&["12", "4"]), "divide", &arithmetic), "3");
    assert_eq!(apply_operation(texts(&["12", "0", "4"]), "divide", &arithmetic), "3");
    assert_eq!(apply_operation(texts(&["1", "4"]), "divide", &arithmetic), "0.25");
    assert_eq!(apply_operation(texts(&["0", "0"]), "divide", &arithmetic), "0");
}

#[test]
fn unparseable_values_alone_give_the_empty_text() {
    for name in ["add", "subtract", "multiply", "divide"] {
        assert_eq!(apply_operation(texts(&["a", "", "１２"]), name, &arithmetic), "");
        assert_eq!(apply_operation(texts(&["1e", " 2", "3 ", "0x4"]), name, &never), "");
    }
}

#[test]
fn numbers_in_every_spelling_take_part() {
    assert_eq!(apply_operation(texts(&["1e2", ".5", "+4.", "-1E1"]), "add", &arithmetic), "94.5");
    assert_eq!(apply_operation(texts(&["inf", "1"]), "add", &arithmetic), "9223372036854775807");
    assert_eq!(apply_operation(texts(&["NaN", "1"]), "multiply", &arithmetic), "NaN");
}

#[test]
fn one_parseable_value_comes_back() {
    for name in ["add", "subtract", "multiply", "divide"] {
        assert_eq!(apply_operation(texts(&["x", "7.25", ""]), name, &arithmetic), "7.25");
        assert_eq!(apply_operation(texts(&["42"]), name, &arithmetic), "42");
    }
}

fn none(_: Operation, _: &Vec<String>) -> Option<FloatValue> {
    None
}

#[test]
fn a_missing_result_is_written_as_empty_text() {
    assert_eq!(apply_operation(texts(&["1", "2"]), "add", &none), "");
}

#[test]
fn the_operation_and_the_values_reach_the_arithmetic() {
    let seen = std::cell::RefCell::new(Vec::new());
    let spy = |op: Operation, values: &Vec<String>| {
        seen.borrow_mut().push((op, values.clone()));
        Some(FloatValue { integral: Some(-3), text: "-3".to_string() })
    };
    assert_eq!(apply_operation(texts(&["a", "4", "", "2e0", "b"]), "divide", &spy), "-3");
    assert_eq!(*seen.borrow(), vec![(Operation::Divide, texts(&["4", "2e0"]))]);
}
