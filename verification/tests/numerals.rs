use raytracer::numerals::{is_float_token, parse_u32_numeral, push_decimal};

#[test]
fn plain_decimal_numerals_are_float_tokens() {
    assert!(is_float_token(b"0"));
    assert!(is_float_token(b"42"));
    assert!(is_float_token(b"1.0"));
    assert!(is_float_token(b"-0.5"));
    assert!(is_float_token(b"+3.25"));
    assert!(is_float_token(b"1."));
    assert!(is_float_token(b".5"));
    assert!(is_float_token(b"-.5"));
}

#[test]
fn exponents_are_float_tokens() {
    assert!(is_float_token(b"1e5"));
    assert!(is_float_token(b"1E5"));
    assert!(is_float_token(b"-1.5e-3"));
    assert!(is_float_token(b"+2.E+4"));
    assert!(is_float_token(b".5e1"));
}

#[test]
fn named_values_are_float_tokens_in_any_case() {
    assert!(is_float_token(b"inf"));
    assert!(is_float_token(b"INF"));
    assert!(is_float_token(b"-Inf"));
    assert!(is_float_token(b"infinity"));
    assert!(is_float_token(b"Infinity"));
    assert!(is_float_token(b"nan"));
    assert!(is_float_token(b"NaN"));
    assert!(is_float_token(b"+nan"));
}

#[test]
fn broken_numerals_are_not_float_tokens() {
    assert!(!is_float_token(b""));
    assert!(!is_float_token(b"+"));
    assert!(!is_float_token(b"."));
    assert!(!is_float_token(b"e5"));
    assert!(!is_float_token(b"1e"));
    assert!(!is_float_token(b"1e+"));
    assert!(!is_float_token(b"1.2.3"));
    assert!(!is_float_token(b"1e2e3"));
    assert!(!is_float_token(b"abc"));
    assert!(!is_float_token(b"infin"));
    assert!(!is_float_token(b"1 2"));
    assert!(!is_float_token(b"--1"));
}

#[test]
fn unsigned_numerals_read_their_exact_value() {
    assert_eq!(parse_u32_numeral(b"0"), Some(0));
    assert_eq!(parse_u32_numeral(b"7"), Some(7));
    assert_eq!(parse_u32_numeral(b"+42"), Some(42));
    assert_eq!(parse_u32_numeral(b"0012"), Some(12));
    assert_eq!(parse_u32_numeral(b"4294967295"), Some(u32::MAX));
}

#[test]
fn broken_unsigned_numerals_are_rejected() {
    assert_eq!(parse_u32_numeral(b""), None);
    assert_eq!(parse_u32_numeral(b"+"), None);
    assert_eq!(parse_u32_numeral(b"-1"), None);
    assert_eq!(parse_u32_numeral(b"12x"), None);
    assert_eq!(parse_u32_numeral(b"4294967296"), None);
    assert_eq!(parse_u32_numeral(b"99999999999999999999"), None);
}

#[test]
fn decimal_rendering_appends_the_plain_numeral() {
    let mut out = Vec::new();
    push_decimal(0, &mut out);
    assert_eq!(out, b"0");
    let mut out = Vec::new();
    push_decimal(255, &mut out);
    assert_eq!(out, b"255");
    let mut out = b"x=".to_vec();
    push_decimal(1048576, &mut out);
    assert_eq!(out, b"x=1048576");
}
