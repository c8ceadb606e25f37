use dex::literal::{is_float_literal, parse_int};

#[test]
fn integer_literals_as_i64_reads_them() {
    assert_eq!(parse_int("0"), Some(0));
    assert_eq!(parse_int("42"), Some(42));
    assert_eq!(parse_int("+7"), Some(7));
    assert_eq!(parse_int("-7"), Some(-7));
    assert_eq!(parse_int("9223372036854775807"), Some(i64::MAX));
    assert_eq!(parse_int("-9223372036854775808"), Some(i64::MIN));
    assert_eq!(parse_int("9223372036854775808"), None);
    assert_eq!(parse_int("-9223372036854775809"), None);
    assert_eq!(parse_int(""), None);
    assert_eq!(parse_int("-"), None);
    assert_eq!(parse_int("+"), None);
    assert_eq!(parse_int("12a"), None);
    assert_eq!(parse_int(" 1"), None);
    assert_eq!(parse_int("007"), Some(7));
}

#[test]
fn integer_literals_agree_with_std() {
    for s in ["0", "1", "-1", "123456789", "99999999999999999999", "+", "--1", "1_000", "00"] {
        assert_eq!(parse_int(s), s.parse::<i64>().ok(), "{}", s);
    }
}

#[test]
fn float_literals_as_f64_reads_them() {
    for s in ["1.5", "1.", ".5", "1e10", "1E-3", "+2.5e+7", "inf", "-NaN", "Infinity", "0", "007.0"] {
        assert!(is_float_literal(s), "{}", s);
        assert!(s.parse::<f64>().is_ok(), "{}", s);
    }
    for s in [".", "e5", "1e", "abc", "", "1.2.3", "1e5.0", " 1.0", "infin", "+"] {
        assert!(!is_float_literal(s), "{}", s);
        assert!(s.parse::<f64>().is_err(), "{}", s);
    }
}
