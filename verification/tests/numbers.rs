use ordersheet::number::{is_float_literal, numeric_operands};

fn reads_as_float(text: &str) -> bool {
    text.parse::<f64>().is_ok()
}

fn check_all(alphabet: &[char], length: usize) {
    let mut text = String::new();
    let mut counters = vec![0usize; length];
    loop {
        text.clear();
        for &c in &counters {
            text.push(alphabet[c]);
        }
        assert_eq!(is_float_literal(&text), reads_as_float(&text), "for {:?}", text);
        let mut place = 0;
        loop {
            if place == length {
                return;
            }
            counters[place] += 1;
            if counters[place] < alphabet.len() {
                break;
            }
            counters[place] = 0;
            place += 1;
        }
    }
}

#[test]
fn short_texts_are_told_as_the_standard_library_reads_them() {
    let alphabet = ['+', '-', '.', '0', '7', 'e', 'E', 'i', 'n', 'f', 'a', 'N', 'I', ' ', 'x', '_', '١'];
    for length in 0..5 {
        check_all(&alphabet, length);
    }
}

#[test]
fn longer_number_shapes_are_told_as_the_standard_library_reads_them() {
    let alphabet = ['+', '-', '.', '3', 'e', 'E'];
    for length in 5..9 {
        check_all(&alphabet, length);
    }
}

#[test]
fn special_words_are_told_as_the_standard_library_reads_them() {
    let letters = ['i', 'I', 'n', 'N', 'f', 'F', 't', 'T', 'y', 'Y', 'a', 'A'];
    check_all(&letters, 3);
    let words = ["inf", "infinity", "nan", "infinit", "infinityy", "in", "na", "nanan", "infnan"];
    for word in words {
        let count = word.chars().count();
        for mask in 0..(1usize << count) {
            let cased: String = word
                .chars()
                .enumerate()
                .map(|(i, c)| if mask & (1 << i) != 0 { c.to_ascii_uppercase() } else { c })
                .collect();
            for sign in ["", "+", "-", "+-", " "] {
                let text = format!("{}{}", sign, cased);
                assert_eq!(is_float_literal(&text), reads_as_float(&text), "for {:?}", text);
            }
        }
    }
}

#[test]
fn chosen_texts_are_told_as_the_standard_library_reads_them() {
    let samples = [
        "13800138000", "3.14", "-0.5", "+7", "1e10", "1E-10", "1.5e+3", ".5", "5.", "0.0", "-.5e2",
        "1e400", "1e-400", "0000000001", "123456789012345678901234567890.123456789e-5",
        "", ".", "+", "-", "e", "e5", "1e", "1e+", "1.e", ".e1", "1..2", "1.2.3", "1e5.5", "1e5e5",
        "0x10", "1f32", "1_000", "١٢٣", "１２", "一", "1 ", " 1", "1\n", "\t1", "1,5", "1，5",
        "NaN", "nan", "-nan", "+NaN", "inf", "-inf", "Infinity", "+INFINITY", "infinit", "in", "∞",
        "İnf", "ınf", "ınfınıty", "true", "张三", "12张", "--1", "+-1", "++1", "1-", "1+", "-+1",
    ];
    for text in samples {
        assert_eq!(is_float_literal(text), reads_as_float(text), "for {:?}", text);
    }
}

#[test]
fn operands_are_the_numbers_in_their_order() {
    let values: Vec<String> = ["3", "x", "", ".5", "nan", "1e", "-2"].iter().map(|v| v.to_string()).collect();
    let operands = numeric_operands(&values);
    assert_eq!(operands, vec!["3", ".5", "nan", "-2"]);
    assert!(numeric_operands(&Vec::new()).is_empty());
}
