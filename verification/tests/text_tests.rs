use blockchain_api::text::{
    read_int, read_int_line, read_lit, read_nat, read_str, read_str_line, to_chars, write_int,
    write_nat, write_str,
};

fn chars(text: &str) -> Vec<char> {
    to_chars(text)
}

#[test]
fn to_chars_lists_the_characters() {
    assert_eq!(to_chars(""), Vec::<char>::new());
    assert_eq!(to_chars("aé\n"), vec!['a', 'é', '\n']);
}

#[test]
fn write_nat_is_decimal_without_leading_zeros() {
    let mut out = String::new();
    write_nat(&mut out, 0);
    out.push(' ');
    write_nat(&mut out, 7);
    out.push(' ');
    write_nat(&mut out, 10);
    out.push(' ');
    write_nat(&mut out, 1234567890);
    out.push(' ');
    write_nat(&mut out, u64::MAX);
    assert_eq!(out, "0 7 10 1234567890 18446744073709551615");
}

#[test]
fn write_nat_appends_to_what_is_there() {
    let mut out = String::from("n=");
    write_nat(&mut out, 0);
    write_nat(&mut out, 409);
    assert_eq!(out, "n=0409");
}

#[test]
fn write_int_puts_a_minus_before_negative_numbers() {
    let mut out = String::new();
    write_int(&mut out, 0);
    out.push(' ');
    write_int(&mut out, -1);
    out.push(' ');
    write_int(&mut out, 1700000000);
    out.push(' ');
    write_int(&mut out, i64::MIN);
    out.push(' ');
    write_int(&mut out, i64::MAX);
    assert_eq!(out, "0 -1 1700000000 -9223372036854775808 9223372036854775807");
}

#[test]
fn write_str_prefixes_the_number_of_characters() {
    let mut out = String::new();
    write_str(&mut out, "alice");
    write_str(&mut out, "");
    write_str(&mut out, "zoë:1");
    assert_eq!(out, "5:alice0:5:zoë:1");
}

#[test]
fn read_lit_takes_the_literal_or_nothing() {
    let input = chars("hash 12");
    assert_eq!(read_lit(&input, 0, "hash "), Some(5));
    assert_eq!(read_lit(&input, 0, ""), Some(0));
    assert_eq!(read_lit(&input, 5, "12"), Some(7));
    assert_eq!(read_lit(&input, 0, "hash 123"), None);
    assert_eq!(read_lit(&input, 0, "Hash "), None);
    assert_eq!(read_lit(&input, 7, "x"), None);
}

#[test]
fn read_nat_takes_the_whole_run_of_digits() {
    assert_eq!(read_nat(&chars("42 rest"), 0, u64::MAX as u128), Some((42, 2)));
    assert_eq!(read_nat(&chars("x700"), 1, u64::MAX as u128), Some((700, 4)));
    assert_eq!(read_nat(&chars("0"), 0, 0), Some((0, 1)));
    assert_eq!(read_nat(&chars("abc"), 0, u64::MAX as u128), None);
    assert_eq!(read_nat(&chars(""), 0, u64::MAX as u128), None);
    assert_eq!(read_nat(&chars("12"), 2, u64::MAX as u128), None);
}

#[test]
fn read_nat_refuses_needless_leading_zeros() {
    assert_eq!(read_nat(&chars("007"), 0, u64::MAX as u128), None);
    assert_eq!(read_nat(&chars("00"), 0, u64::MAX as u128), None);
    assert_eq!(read_nat(&chars("01"), 0, u64::MAX as u128), None);
    assert_eq!(read_nat(&chars("0"), 0, u64::MAX as u128), Some((0, 1)));
    assert_eq!(read_nat(&chars("0x"), 0, u64::MAX as u128), Some((0, 1)));
    assert_eq!(read_nat(&chars("10"), 0, u64::MAX as u128), Some((10, 2)));
}

#[test]
fn read_nat_refuses_numbers_over_the_limit() {
    assert_eq!(
        read_nat(&chars("18446744073709551615"), 0, u64::MAX as u128),
        Some((u64::MAX as u128, 20))
    );
    assert_eq!(read_nat(&chars("18446744073709551616"), 0, u64::MAX as u128), None);
    assert_eq!(read_nat(&chars("99999999999999999999999999"), 0, u64::MAX as u128), None);
    assert_eq!(read_nat(&chars("10"), 0, 10), Some((10, 2)));
    assert_eq!(read_nat(&chars("11"), 0, 10), None);
    assert_eq!(read_nat(&chars("110"), 0, 10), None);
}

#[test]
fn read_int_handles_the_sign_and_the_range() {
    let min = i64::MIN as i128;
    let max = i64::MAX as i128;
    assert_eq!(read_int(&chars("-5\n"), 0, min, max), Some((-5, 2)));
    assert_eq!(read_int(&chars("5"), 0, min, max), Some((5, 1)));
    assert_eq!(read_int(&chars("-0"), 0, min, max), None);
    assert_eq!(read_int(&chars("0"), 0, min, max), Some((0, 1)));
    assert_eq!(read_int(&chars("-05"), 0, min, max), None);
    assert_eq!(
        read_int(&chars("-9223372036854775808"), 0, min, max),
        Some((min, 20))
    );
    assert_eq!(read_int(&chars("-9223372036854775809"), 0, min, max), None);
    assert_eq!(
        read_int(&chars("9223372036854775807"), 0, min, max),
        Some((max, 19))
    );
    assert_eq!(read_int(&chars("9223372036854775808"), 0, min, max), None);
    assert_eq!(read_int(&chars("-"), 0, min, max), None);
    assert_eq!(read_int(&chars("+5"), 0, min, max), None);
    assert_eq!(read_int(&chars("-1"), 0, 0, 10), None);
    assert_eq!(read_int(&chars("0"), 0, 1, 10), None);
    assert_eq!(read_int(&chars("1"), 0, 1, 10), Some((1, 1)));
    assert_eq!(read_int(&chars("10"), 0, 1, 10), Some((10, 2)));
    assert_eq!(read_int(&chars("11"), 0, 1, 10), None);
    assert_eq!(read_int(&chars("-5"), 0, -10, -1), Some((-5, 2)));
    assert_eq!(read_int(&chars("-11"), 0, -10, -1), None);
    assert_eq!(read_int(&chars("0"), 0, -10, -1), None);
    assert_eq!(read_int(&chars("5"), 0, -10, -1), None);
    assert_eq!(read_int(&chars("7"), 0, 8, 3), None);
    assert_eq!(read_int(&chars("--1"), 0, min, max), None);
}

#[test]
fn read_int_reaches_the_ends_of_its_type() {
    let min = i128::MIN;
    let max = i128::MAX;
    assert_eq!(
        read_int(&chars("-170141183460469231731687303715884105728"), 0, min, max),
        Some((min, 40))
    );
    assert_eq!(
        read_int(&chars("-170141183460469231731687303715884105729"), 0, min, max),
        None
    );
    assert_eq!(
        read_int(&chars("170141183460469231731687303715884105727"), 0, min, max),
        Some((max, 39))
    );
    assert_eq!(
        read_int(&chars("170141183460469231731687303715884105728"), 0, min, max),
        None
    );
    assert_eq!(
        read_nat(&chars("340282366920938463463374607431768211455"), 0, u128::MAX),
        Some((u128::MAX, 39))
    );
    assert_eq!(
        read_nat(&chars("340282366920938463463374607431768211456"), 0, u128::MAX),
        None
    );
}

#[test]
fn read_str_takes_exactly_the_announced_characters() {
    let (value, end) = read_str(&chars("5:alice\n"), 0).unwrap();
    assert_eq!(value, "alice");
    assert_eq!(end, 7);
    let (value, end) = read_str(&chars("0:"), 0).unwrap();
    assert_eq!(value, "");
    assert_eq!(end, 2);
    let (value, end) = read_str(&chars("3:é\n:x"), 0).unwrap();
    assert_eq!(value, "é\n:");
    assert_eq!(end, 5);
    assert!(read_str(&chars("6:alice"), 0).is_none());
    assert!(read_str(&chars("5alice"), 0).is_none());
    assert!(read_str(&chars(":alice"), 0).is_none());
    assert!(read_str(&chars("5"), 0).is_none());
    assert!(read_str(&chars("99999999999999999999999:a"), 0).is_none());
}

#[test]
fn read_int_line_wants_label_number_and_line_feed() {
    let input = chars("nonce 317\nhash");
    assert_eq!(
        read_int_line(&input, 0, "nonce ", 0, u64::MAX as i128),
        Some((317, 10))
    );
    assert_eq!(read_int_line(&input, 0, "count ", 0, u64::MAX as i128), None);
    assert_eq!(read_int_line(&chars("nonce 317"), 0, "nonce ", 0, 400), None);
    assert_eq!(read_int_line(&chars("nonce 317 \n"), 0, "nonce ", 0, 400), None);
    assert_eq!(read_int_line(&chars("nonce 401\n"), 0, "nonce ", 0, 400), None);
    assert_eq!(read_int_line(&chars("nonce \n"), 0, "nonce ", 0, 400), None);
}

#[test]
fn read_str_line_wants_label_string_and_line_feed() {
    let (value, end) = read_str_line(&chars("from 5:alice\nto"), 0, "from ").unwrap();
    assert_eq!(value, "alice");
    assert_eq!(end, 13);
    assert!(read_str_line(&chars("from 5:alice"), 0, "from ").is_none());
    assert!(read_str_line(&chars("from 4:alice\n"), 0, "from ").is_none());
    assert!(read_str_line(&chars("to 5:alice\n"), 0, "from ").is_none());
}
