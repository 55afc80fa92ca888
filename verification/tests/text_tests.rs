use yaml_config::realtext::{is_float_text, is_yaml_real_text};
use yaml_config::text::{parse_bool, parse_i64, str_eq, to_upper};

#[test]
fn parse_i64_accepts_signed_decimal() {
    assert_eq!(parse_i64("42"), Some(42));
    assert_eq!(parse_i64("+42"), Some(42));
    assert_eq!(parse_i64("-42"), Some(-42));
    assert_eq!(parse_i64("007"), Some(7));
    assert_eq!(parse_i64("0"), Some(0));
    assert_eq!(parse_i64("-0"), Some(0));
    assert_eq!(parse_i64("9223372036854775807"), Some(i64::MAX));
    assert_eq!(parse_i64("-9223372036854775808"), Some(i64::MIN));
    assert_eq!(parse_i64("00000000000000000000001"), Some(1));
}

#[test]
fn parse_i64_rejects_everything_else() {
    assert_eq!(parse_i64(""), None);
    assert_eq!(parse_i64("+"), None);
    assert_eq!(parse_i64("-"), None);
    assert_eq!(parse_i64(" 1"), None);
    assert_eq!(parse_i64("1 "), None);
    assert_eq!(parse_i64("1_000"), None);
    assert_eq!(parse_i64("0x10"), None);
    assert_eq!(parse_i64("4.2"), None);
    assert_eq!(parse_i64("9223372036854775808"), None);
    assert_eq!(parse_i64("-9223372036854775809"), None);
    assert_eq!(parse_i64("99999999999999999999999999"), None);
}

#[test]
fn parse_i64_agrees_with_the_standard_parse() {
    let samples = [
        "", "0", "1", "-1", "+1", "007", " 7", "7 ", "1_0", "--1", "+-1", "abc", "42abc",
        "9223372036854775807", "9223372036854775808", "-9223372036854775808",
        "-9223372036854775809", "184467440737095516160",
    ];
    for s in samples {
        assert_eq!(parse_i64(s), s.parse::<i64>().ok(), "disagrees on {:?}", s);
    }
}

#[test]
fn parse_bool_accepts_exactly_the_literals() {
    assert_eq!(parse_bool("true"), Some(true));
    assert_eq!(parse_bool("false"), Some(false));
    assert_eq!(parse_bool("True"), None);
    assert_eq!(parse_bool("FALSE"), None);
    assert_eq!(parse_bool("1"), None);
    assert_eq!(parse_bool(""), None);
}

#[test]
fn float_acceptance_agrees_with_the_standard_parse() {
    let samples = [
        "3.14", "-3.14", "2.5E10", "2.5e-10", "5.", ".5", "-.5e-2", "5.e3", "1e3", "1e999",
        "inf", "+inf", "-inf", "infinity", "Infinity", "INFINITY", "nan", "NaN", "NAN",
        "", ".", "+", "-", "e3", ".e3", "1e", "1e+", "1..2", "1.2.3", "0x1p3", "1_000.0",
        " 1.0", "1.0 ", "abc", "infx", "infinityy", "n a n", "+.5", "-.inf",
    ];
    for s in samples {
        assert_eq!(is_float_text(s), s.parse::<f64>().is_ok(), "disagrees on {:?}", s);
    }
}

#[test]
fn yaml_real_acceptance_adds_the_core_schema_forms() {
    assert!(is_yaml_real_text(".inf"));
    assert!(is_yaml_real_text("+.INF"));
    assert!(is_yaml_real_text("-.Inf"));
    assert!(is_yaml_real_text(".nan"));
    assert!(is_yaml_real_text(".NAN"));
    assert!(is_yaml_real_text("NaN"));
    assert!(is_yaml_real_text("3.14"));
    assert!(!is_yaml_real_text(".INf"));
    assert!(!is_yaml_real_text("wide"));
}

#[test]
fn to_upper_uppercases_each_character() {
    assert_eq!(to_upper("abc"), "ABC");
    assert_eq!(to_upper("sub_key_a"), "SUB_KEY_A");
    assert_eq!(to_upper("MiXeD-42"), "MIXED-42");
    assert_eq!(to_upper(""), "");
    assert_eq!(to_upper("grüße"), "GRÜSSE");
}

#[test]
fn str_eq_compares_by_characters() {
    assert!(str_eq("", ""));
    assert!(str_eq("abc", "abc"));
    assert!(!str_eq("abc", "abd"));
    assert!(!str_eq("abc", "ab"));
    assert!(str_eq("日本", "日本"));
}
