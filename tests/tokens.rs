use evolutionary_regression::tokenizer::{drop_extra_dots, is_bare_dot, tokenize, Tokenizer};

fn token_strings(expr: &str) -> Vec<String> {
    tokenize(expr.as_bytes())
        .iter()
        .map(|t| String::from_utf8(t.to_vec()).unwrap())
        .collect()
}

#[test]
fn tokens_of_simple_sum() {
    assert_eq!(token_strings("1 1 +"), vec!["1", "1", "+"]);
}

#[test]
fn tokens_of_negative_numbers() {
    assert_eq!(token_strings("-11 -1 -"), vec!["-11", "-1", "-"]);
    assert_eq!(token_strings("3-2"), vec!["3", "-2"]);
}

#[test]
fn tokens_of_operators_without_spaces() {
    assert_eq!(token_strings("llc"), vec!["l", "l", "c"]);
    assert_eq!(token_strings("x2.5^"), vec!["x", "2.5", "^"]);
}

#[test]
fn tokens_of_dash_dot() {
    assert_eq!(token_strings("-."), vec!["-."]);
}

#[test]
fn tokens_of_blank_input() {
    assert!(token_strings("").is_empty());
    assert!(token_strings(" \t\r\n").is_empty());
    assert_eq!(token_strings("  7  "), vec!["7"]);
}

#[test]
fn tokenizer_steps() {
    let bytes = b" 12.5 s";
    let mut t = Tokenizer::new(bytes);
    assert!(!t.is_num(0));
    assert!(t.is_num(1));
    assert!(t.is_num(3));
    assert!(!t.is_num(100));
    assert!(t.is_char(6, b's'));
    assert!(!t.is_char(7, b's'));
    assert_eq!(t.next(), Some(&b"12.5"[..]));
    assert_eq!(t.next(), Some(&b"s"[..]));
    assert_eq!(t.next(), None);
}

#[test]
fn tokenizer_advance() {
    let bytes = b"abcdef";
    let mut t = Tokenizer::new(bytes);
    assert_eq!(t.advance(2), &b"ab"[..]);
    assert!(t.is_char(0, b'c'));
    assert_eq!(t.advance(4), &b"cdef"[..]);
    assert_eq!(t.next(), None);
}

#[test]
fn extra_dots_are_dropped() {
    assert_eq!(drop_extra_dots(b"1.2.3"), b"1.23".to_vec());
    assert_eq!(drop_extra_dots(b"..5."), b".5".to_vec());
    assert_eq!(drop_extra_dots(b"-12"), b"-12".to_vec());
    assert_eq!(drop_extra_dots(b""), Vec::<u8>::new());
}

#[test]
fn bare_dots_read_as_zero() {
    assert!(is_bare_dot(b"."));
    assert!(is_bare_dot(b"-."));
    assert!(!is_bare_dot(b"-.5"));
    assert!(!is_bare_dot(b"1"));
    assert!(!is_bare_dot(b""));
}
