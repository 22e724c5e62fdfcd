use markpad::decimal::{decimal_string, parse_u64, push_decimal};
use markpad::text::chars_of;

#[test]
fn decimal_string_writes_the_number() {
    assert_eq!(decimal_string(0), "0");
    assert_eq!(decimal_string(7), "7");
    assert_eq!(decimal_string(10), "10");
    assert_eq!(decimal_string(1234567890), "1234567890");
    assert_eq!(decimal_string(u64::MAX as u128), "18446744073709551615");
    assert_eq!(decimal_string(u128::MAX), "340282366920938463463374607431768211455");
}

#[test]
fn decimal_string_agrees_with_std() {
    let mut n: u128 = 1;
    for _ in 0..128 {
        assert_eq!(decimal_string(n), n.to_string());
        assert_eq!(decimal_string(n - 1), (n - 1).to_string());
        n = n.wrapping_mul(2);
    }
}

#[test]
fn push_decimal_appends() {
    let mut text = "v".to_string();
    push_decimal(&mut text, 305);
    push_decimal(&mut text, 0);
    assert_eq!(text, "v3050");
}

#[test]
fn parse_u64_reads_numbers() {
    assert_eq!(parse_u64("0"), Some(0));
    assert_eq!(parse_u64("42"), Some(42));
    assert_eq!(parse_u64("+42"), Some(42));
    assert_eq!(parse_u64("0042"), Some(42));
    assert_eq!(parse_u64("18446744073709551615"), Some(u64::MAX));
}

#[test]
fn parse_u64_rejects_everything_else() {
    assert_eq!(parse_u64(""), None);
    assert_eq!(parse_u64("+"), None);
    assert_eq!(parse_u64("-1"), None);
    assert_eq!(parse_u64("4 2"), None);
    assert_eq!(parse_u64("42 "), None);
    assert_eq!(parse_u64("4.2"), None);
    assert_eq!(parse_u64("٤٢"), None);
    assert_eq!(parse_u64("18446744073709551616"), None);
    assert_eq!(parse_u64("184467440737095516150"), None);
}

#[test]
fn parse_u64_agrees_with_std() {
    let samples = vec![
        "", "+", "-", "+-1", "++1", "1+", "007", "+007", "12a", "a12", "18446744073709551615",
        "18446744073709551616", "99999999999999999999", "0000000000000000000000001", "１",
        "1\n", "\t1",
    ];
    for sample in samples {
        assert_eq!(parse_u64(sample), sample.parse::<u64>().ok(), "{:?}", sample);
    }
}

#[test]
fn parse_reads_back_what_decimal_writes() {
    let numbers: Vec<u64> = vec![0, 5, 10, 4096, 1700000000000, u64::MAX];
    for number in numbers {
        assert_eq!(parse_u64(&decimal_string(number as u128)), Some(number));
    }
}

#[test]
fn chars_of_lists_the_characters() {
    assert_eq!(chars_of("a图.1"), vec!['a', '图', '.', '1']);
    assert_eq!(chars_of(""), Vec::<char>::new());
}
