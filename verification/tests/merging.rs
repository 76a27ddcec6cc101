use ordersheet::{merge_duplicates, ConvertedRow};

fn order(key: (&str, &str, &str), product: &str, spec: &str, quantity: &str, remarks: &str, group_id: usize) -> ConvertedRow {
    ConvertedRow {
        recipient_name: key.0.to_string(),
        recipient_phone: key.1.to_string(),
        delivery_address: key.2.to_string(),
        product_name: product.to_string(),
        product_spec: spec.to_string(),
        quantity: quantity.to_string(),
        remarks: remarks.to_string(),
        group_id,
    }
}

fn a() -> (&'static str, &'static str, &'static str) {
    ("A", "1", "X")
}

fn b() -> (&'static str, &'static str, &'static str) {
    ("B", "2", "Y")
}

#[test]
fn different_products_count_one_each() {
    let rows = vec![order(a(), "Widget", "", "2", "", 1), order(a(), "Gadget", "", "3", "", 1)];
    let merged = merge_duplicates(&rows);
    assert_eq!(merged, vec![order(a(), "Widget；Gadget", "", "1；1", "", 0)]);
}

#[test]
fn one_product_sums_the_quantities() {
    let rows = vec![order(a(), "Widget", "", "2", "", 1), order(a(), "Widget", "", "3", "", 1)];
    let merged = merge_duplicates(&rows);
    assert_eq!(merged, vec![order(a(), "Widget", "", "5", "", 0)]);
}

#[test]
fn merged_rows_merge_to_themselves() {
    let rows = vec![
        order(b(), "Widget；Gadget", "红；蓝", "1；1", "急", 0),
        order(a(), "Widget", "", "x", "", 0),
        order(("", "", ""), "", "", "", "", 0),
    ];
    assert_eq!(merge_duplicates(&rows), rows);
    let once = merge_duplicates(&[
        order(a(), "Widget", "", "2", "", 0),
        order(b(), "Bolt", "", "1", "", 0),
        order(a(), "Gadget", "", "3", "", 0),
    ]);
    assert_eq!(merge_duplicates(&once), once);
}

#[test]
fn rows_with_distinct_keys_only_lose_their_group_number() {
    let rows = vec![order(b(), "p", "s", "not a number", "r", 7), order(a(), "", "", "", "", 3)];
    let merged = merge_duplicates(&rows);
    assert_eq!(
        merged,
        vec![order(b(), "p", "s", "not a number", "r", 0), order(a(), "", "", "", "", 0)]
    );
}

#[test]
fn groups_come_in_the_order_of_their_first_row() {
    let rows = vec![
        order(b(), "Bolt", "", "1", "", 2),
        order(a(), "Widget", "", "2", "", 1),
        order(b(), "Bolt", "", "4", "", 2),
        order(("C", "", ""), "Nut", "", "9", "", 0),
        order(a(), "Widget", "", "1", "", 1),
    ];
    let merged = merge_duplicates(&rows);
    assert_eq!(
        merged,
        vec![
            order(b(), "Bolt", "", "5", "", 0),
            order(a(), "Widget", "", "3", "", 0),
            order(("C", "", ""), "Nut", "", "9", "", 0),
        ]
    );
}

#[test]
fn the_key_is_name_phone_and_address_together() {
    let rows = vec![
        order(("A", "1", "X"), "p", "", "1", "", 0),
        order(("A", "1", "Y"), "p", "", "1", "", 0),
        order(("A", "2", "X"), "p", "", "1", "", 0),
        order(("a", "1", "X"), "p", "", "1", "", 0),
        order(("A", "1", "X"), "p", "", "1", "", 0),
    ];
    let merged = merge_duplicates(&rows);
    assert_eq!(merged.len(), 4);
    assert_eq!(merged[0], order(("A", "1", "X"), "p", "", "2", "", 0));
}

#[test]
fn specs_and_remarks_are_distinct_and_filled() {
    let rows = vec![
        order(a(), "Widget", "红", "1", "", 0),
        order(a(), "Widget", "", "1", "轻放", 0),
        order(a(), "Widget", "蓝", "1", "轻放", 0),
        order(a(), "Widget", "红", "1", "加急", 0),
    ];
    let merged = merge_duplicates(&rows);
    assert_eq!(merged, vec![order(a(), "Widget", "红；蓝", "4", "轻放；加急", 0)]);
}

#[test]
fn empty_product_names_do_not_count_as_products() {
    let rows = vec![
        order(a(), "", "", "2", "", 0),
        order(a(), "Widget", "", "3", "", 0),
        order(a(), "", "", "4", "", 0),
    ];
    let merged = merge_duplicates(&rows);
    assert_eq!(merged, vec![order(a(), "Widget", "", "9", "", 0)]);
    let unnamed = merge_duplicates(&[order(a(), "", "", "2", "", 0), order(a(), "", "", "2", "", 0)]);
    assert_eq!(unnamed, vec![order(a(), "", "", "4", "", 0)]);
}

#[test]
fn three_products_give_three_ones() {
    let rows = vec![
        order(a(), "a", "", "5", "", 0),
        order(a(), "b", "", "5", "", 0),
        order(a(), "a", "", "5", "", 0),
        order(a(), "c", "", "5", "", 0),
    ];
    let merged = merge_duplicates(&rows);
    assert_eq!(merged[0].product_name, "a；b；c");
    assert_eq!(merged[0].quantity, "1；1；1");
}

#[test]
fn a_quantity_that_is_no_number_counts_as_one() {
    let rows = vec![
        order(a(), "Widget", "", "two", "", 0),
        order(a(), "Widget", "", "", "", 0),
        order(a(), "Widget", "", "-3", "", 0),
        order(a(), "Widget", "", "2.0", "", 0),
        order(a(), "Widget", "", " 4", "", 0),
        order(a(), "Widget", "", "+4", "", 0),
        order(a(), "Widget", "", "007", "", 0),
    ];
    let merged = merge_duplicates(&rows);
    assert_eq!(merged[0].quantity, "16");
}

#[test]
fn a_quantity_too_large_to_hold_counts_as_one() {
    let rows = vec![
        order(a(), "Widget", "", "99999999999999999999999999999", "", 0),
        order(a(), "Widget", "", "2", "", 0),
    ];
    assert_eq!(merge_duplicates(&rows)[0].quantity, "3");
}

#[test]
fn large_quantities_add_up_without_wrapping() {
    let most = usize::MAX.to_string();
    let rows = vec![
        order(a(), "Widget", "", &most, "", 0),
        order(a(), "Widget", "", &most, "", 0),
        order(a(), "Widget", "", "2", "", 0),
    ];
    let expected = (usize::MAX as u128) * 2 + 2;
    assert_eq!(merge_duplicates(&rows)[0].quantity, expected.to_string());
}

#[test]
fn nothing_merges_to_nothing() {
    assert!(merge_duplicates(&[]).is_empty());
}

#[test]
fn every_key_is_left_once_and_ungrouped() {
    let keys = [a(), b(), ("C", "3", "Z")];
    let mut rows = Vec::new();
    for i in 0..30usize {
        rows.push(order(keys[(i * 7) % 3], "p", "", "1", "", i));
    }
    let merged = merge_duplicates(&rows);
    assert_eq!(merged.len(), 3);
    for (i, row) in merged.iter().enumerate() {
        assert_eq!(row.group_id, 0);
        assert_eq!(row.quantity, "10");
        for other in &merged[i + 1..] {
            assert_ne!(
                (&row.recipient_name, &row.recipient_phone, &row.delivery_address),
                (&other.recipient_name, &other.recipient_phone, &other.delivery_address)
            );
        }
    }
}

#[test]
fn a_long_list_merges_like_a_map_of_groups() {
    let mut rows = Vec::new();
    let mut seed: u64 = 99;
    for i in 0..3000usize {
        seed = seed.wrapping_mul(6364136223846793005).wrapping_add(1442695040888963407);
        let name = format!("n{}", (seed >> 33) % 400);
        let product = format!("p{}", (seed >> 45) % 3);
        let quantity = format!("{}", (seed >> 50) % 4);
        rows.push(order((&name, "1", "X"), &product, "", &quantity, "", i));
    }
    let merged = merge_duplicates(&rows);
    let mut order_of_keys: Vec<String> = Vec::new();
    let mut groups: std::collections::HashMap<String, Vec<&ConvertedRow>> = std::collections::HashMap::new();
    for row in &rows {
        if !groups.contains_key(&row.recipient_name) {
            order_of_keys.push(row.recipient_name.clone());
        }
        groups.entry(row.recipient_name.clone()).or_default().push(row);
    }
    assert_eq!(merged.len(), order_of_keys.len());
    for (row, name) in merged.iter().zip(order_of_keys.iter()) {
        assert_eq!(&row.recipient_name, name);
        assert_eq!(row.group_id, 0);
        let group = &groups[name];
        if group.len() == 1 {
            assert_eq!(row.quantity, group[0].quantity);
            assert_eq!(row.product_name, group[0].product_name);
            continue;
        }
        let mut products: Vec<String> = Vec::new();
        let mut total = 0usize;
        for member in group {
            if !products.contains(&member.product_name) {
                products.push(member.product_name.clone());
            }
            total += member.quantity.parse::<usize>().unwrap_or(1);
        }
        assert_eq!(row.product_name, products.join("；"));
        if products.len() > 1 {
            assert_eq!(row.quantity, vec!["1"; products.len()].join("；"));
        } else {
            assert_eq!(row.quantity, total.to_string());
        }
    }
}
