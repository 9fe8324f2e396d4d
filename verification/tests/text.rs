use strategy::text::{decimal_text, parse_i32, split_words};

fn chars(s: &str) -> Vec<char> {
    s.chars().collect()
}

#[test]
fn numbers_parse_like_str_parse() {
    assert_eq!(parse_i32(&chars("42")), Some(42));
    assert_eq!(parse_i32(&chars("+7")), Some(7));
    assert_eq!(parse_i32(&chars("-0")), Some(0));
    assert_eq!(parse_i32(&chars("-2147483648")), Some(i32::MIN));
    assert_eq!(parse_i32(&chars("2147483647")), Some(i32::MAX));
    assert_eq!(parse_i32(&chars("2147483648")), None);
    assert_eq!(parse_i32(&chars("99999999999999999999")), None);
    assert_eq!(parse_i32(&chars("-")), None);
    assert_eq!(parse_i32(&chars("")), None);
    assert_eq!(parse_i32(&chars("1_0")), None);
    assert_eq!(parse_i32(&chars("٣")), None);
}

#[test]
fn numbers_print_in_decimal() {
    assert_eq!(decimal_text(0), "0");
    assert_eq!(decimal_text(-305), "-305");
    assert_eq!(decimal_text(i64::MIN + 1), (i64::MIN + 1).to_string());
    assert_eq!(decimal_text(1234567890), "1234567890");
}

#[test]
fn words_split_on_unicode_white_space() {
    let w = split_words("  set\tgold\u{3000}5 ");
    assert_eq!(w, vec![chars("set"), chars("gold"), chars("5")]);
    assert!(split_words(" \n ").is_empty());
}

#[test]
fn printed_numbers_read_back() {
    for n in [i32::MIN, -305, -1, 0, 9, 10, 4096, i32::MAX] {
        let s = decimal_text(n as i64);
        assert_eq!(parse_i32(&chars(&s)), Some(n));
    }
}
