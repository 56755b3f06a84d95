use limbo_core::function::{AggFunc, Func, SingleRowFunc};
use limbo_core::util::{is_f64_literal, normalize_ident, parse_i64, str_eq};

#[test]
fn parse_i64_accepts_signed_decimals() {
    assert_eq!(parse_i64("42"), Some(42));
    assert_eq!(parse_i64("+7"), Some(7));
    assert_eq!(parse_i64("-15"), Some(-15));
    assert_eq!(parse_i64("007"), Some(7));
    assert_eq!(parse_i64("9223372036854775807"), Some(i64::MAX));
    assert_eq!(parse_i64("-9223372036854775808"), Some(i64::MIN));
}

#[test]
fn parse_i64_rejects_what_std_rejects() {
    for s in ["", "-", "+", "1.5", "0x10", " 1", "1 ", "1_000", "9223372036854775808", "-9223372036854775809", "12a", "--1"] {
        assert_eq!(parse_i64(s), None, "{s}");
        assert!(s.parse::<i64>().is_err(), "{s}");
    }
}

#[test]
fn parse_i64_agrees_with_std() {
    for s in ["0", "-0", "+0", "123456789", "-123456789", "99999999999999999999", "1e3", "٣"] {
        assert_eq!(parse_i64(s), s.parse::<i64>().ok(), "{s}");
    }
}

#[test]
fn f64_literal_agrees_with_std() {
    let cases = [
        "1.5", "1e10", "1E+10", "1e-3", ".5", "5.", "inf", "-Infinity", "NaN", "+nan", "INF",
        "infinit", "1e", ".", "", "0x1F", "1.2.3", "e5", "+", "-.5e2", "1..2", " 1.0", "1.0 ",
        "12", "-7", "1_0", "infinity", "nanx", "3.14159",
    ];
    for s in cases {
        assert_eq!(is_f64_literal(s), s.parse::<f64>().is_ok(), "{s}");
    }
}

#[test]
fn normalize_ident_unquotes_and_lowercases() {
    assert_eq!(normalize_ident("ABS"), "abs");
    assert_eq!(normalize_ident("\"Coalesce\""), "coalesce");
    assert_eq!(normalize_ident("\"\""), "");
    assert_eq!(normalize_ident("\"a"), "\"a");
    assert_eq!(normalize_ident("Like"), "like");
}

#[test]
fn str_eq_compares_characters() {
    assert!(str_eq("abc", "abc"));
    assert!(!str_eq("abc", "abd"));
    assert!(!str_eq("abc", "ab"));
    assert!(str_eq("", ""));
}

#[test]
fn func_resolve_knows_the_functions() {
    assert_eq!(Func::resolve("avg"), Some(Func::Agg(AggFunc::Avg)));
    assert_eq!(Func::resolve("count"), Some(Func::Agg(AggFunc::Count)));
    assert_eq!(Func::resolve("group_concat"), Some(Func::Agg(AggFunc::GroupConcat)));
    assert_eq!(Func::resolve("max"), Some(Func::Agg(AggFunc::Max)));
    assert_eq!(Func::resolve("min"), Some(Func::Agg(AggFunc::Min)));
    assert_eq!(Func::resolve("string_agg"), Some(Func::Agg(AggFunc::StringAgg)));
    assert_eq!(Func::resolve("sum"), Some(Func::Agg(AggFunc::Sum)));
    assert_eq!(Func::resolve("total"), Some(Func::Agg(AggFunc::Total)));
    assert_eq!(Func::resolve("coalesce"), Some(Func::SingleRow(SingleRowFunc::Coalesce)));
    assert_eq!(Func::resolve("like"), Some(Func::SingleRow(SingleRowFunc::Like)));
    assert_eq!(Func::resolve("abs"), Some(Func::SingleRow(SingleRowFunc::Abs)));
    assert_eq!(Func::resolve("ABS"), None);
    assert_eq!(Func::resolve("round"), None);
    assert!(Func::resolve("sum").unwrap().is_aggregate());
    assert!(!Func::resolve("abs").unwrap().is_aggregate());
}
