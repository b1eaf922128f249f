use freemarker::error::TemplateError;
use freemarker::number_parse::{parse_number, ParsedNumber};

fn long(s: &str) -> i64 {
    match parse_number(s).unwrap() {
        ParsedNumber::Long(v) => v,
        _ => panic!("not a 64-bit integer: {s}"),
    }
}

#[test]
fn integers_in_64_bits() {
    assert_eq!(long("42"), 42);
    assert_eq!(long(" \t-17\n"), -17);
    assert_eq!(long("+5"), 5);
    assert_eq!(long("9223372036854775807"), i64::MAX);
    assert_eq!(long("-9223372036854775808"), i64::MIN);
}

#[test]
fn big_integers_and_decimals_keep_their_text() {
    match parse_number(" 9223372036854775808 ").unwrap() {
        ParsedNumber::BigInt(t) => assert_eq!(t, "9223372036854775808"),
        _ => panic!("not a big integer"),
    }
    match parse_number("1.50").unwrap() {
        ParsedNumber::Decimal(t) => assert_eq!(t, "1.50"),
        _ => panic!("not a decimal"),
    }
    assert!(matches!(parse_number("1e3").unwrap(), ParsedNumber::Decimal(t) if t == "1e3"));
}

#[test]
fn infinities_and_not_a_number() {
    assert!(matches!(parse_number("INF").unwrap(), ParsedNumber::PosInfinity));
    assert!(matches!(parse_number(" Infinity").unwrap(), ParsedNumber::PosInfinity));
    assert!(matches!(parse_number("-INF").unwrap(), ParsedNumber::NegInfinity));
    assert!(matches!(parse_number("NaN").unwrap(), ParsedNumber::NaN));
}

#[test]
fn other_text_is_no_number() {
    match parse_number(" abc").unwrap_err() {
        TemplateError::Misc { message } => assert_eq!(message, " abc is not a number"),
        other => panic!("unexpected error: {other:?}"),
    }
    assert!(parse_number("").is_err());
    assert!(matches!(parse_number("1_000").unwrap(), ParsedNumber::BigInt(t) if t == "1_000"));
}
