use freemarker::combined_format::{parse_combined_markup_format, CombinedMarkupOutputFormat};
use freemarker::output_format::OutputFormatKind;
use freemarker::settings::{boolean_format, boolean_format_strings, canonical_setting_key, ensure_output_limit, MAX_OUTPUT_BYTES};
use freemarker::strings::{capitalize, chop_linebreak, locale_case, pad, replace_literal_ci};
use freemarker::version::Version;

#[test]
fn capitalize_and_chomp() {
    assert_eq!(capitalize("dieBugsDie! * vazzZE"), "Diebugsdie! * Vazzze");
    assert_eq!(chop_linebreak("qwe\r\n\r\n"), "qwe\r\n");
    assert_eq!(chop_linebreak("qwe\n"), "qwe");
    assert_eq!(chop_linebreak("qwe"), "qwe");
}

#[test]
fn pad_utf16_semantics() {
    let s = "\u{10000}".to_string();
    assert_eq!(s.encode_utf16().count(), 2);
    let padded = pad(&s, 4, " ", true);
    assert_eq!(padded.encode_utf16().count(), 4);
    assert_eq!(padded, "  \u{10000}");
}

#[test]
fn replace_literal_ci_basic() {
    assert_eq!(replace_literal_ci("FoobarfOO", "foo", "X", false), "XbarX");
    assert_eq!(replace_literal_ci("FoobarfOO", "foo", "X", true), "XbarfOO");
}

#[test]
fn parse_combined_names() {
    assert_eq!(
        parse_combined_markup_format("HTML{RTF}"),
        Some(vec![OutputFormatKind::Html, OutputFormatKind::Rtf])
    );
    assert_eq!(
        parse_combined_markup_format("XML{HTML{RTF}}"),
        Some(vec![OutputFormatKind::Xml, OutputFormatKind::Html, OutputFormatKind::Rtf])
    );
    assert_eq!(
        parse_combined_markup_format("HTML"),
        Some(vec![OutputFormatKind::Html])
    );
    assert_eq!(parse_combined_markup_format(""), None);
    assert_eq!(parse_combined_markup_format("HTML{RTF"), None);
    assert_eq!(parse_combined_markup_format("{RTF}"), None);
    assert_eq!(parse_combined_markup_format("plainText{RTF}"), None);
}

#[test]
fn combined_names_and_mime() {
    let html_rtf = CombinedMarkupOutputFormat::new(vec![OutputFormatKind::Html, OutputFormatKind::Rtf]);
    let xml_xml = CombinedMarkupOutputFormat::new(vec![OutputFormatKind::Xml, OutputFormatKind::Xml]);
    assert_eq!(html_rtf.name(), "HTML{RTF}");
    assert_eq!(xml_xml.name(), "XML{XML}");
    assert_eq!(html_rtf.mime_type(), "text/html");
    assert_eq!(xml_xml.mime_type(), "application/xml");
    assert!(html_rtf.is_markup());
}

#[test]
fn version_parse_and_int() {
    let v = Version::parse("2.3.34").unwrap();
    assert_eq!(v, Version::v2_3_34());
    assert_eq!(v.to_int(), 2_003_034);
}

#[test]
fn output_format_names() {
    assert_eq!(OutputFormatKind::Html.name(), "HTML");
    assert_eq!(OutputFormatKind::parse("html"), Some(OutputFormatKind::Html));
    assert!(OutputFormatKind::Html.is_markup());
    assert!(!OutputFormatKind::PlainText.is_markup());
}

#[test]
fn canonical_setting_key_both_conventions() {
    for (snake, camel) in [
        ("boolean_format", "booleanFormat"),
        ("c_format", "cFormat"),
        ("classic_compatible", "classicCompatible"),
        ("date_format", "dateFormat"),
        ("datetime_format", "datetimeFormat"),
        ("number_format", "numberFormat"),
        ("output_encoding", "outputEncoding"),
        ("sql_date_and_time_time_zone", "sqlDateAndTimeTimeZone"),
        ("time_format", "timeFormat"),
        ("time_zone", "timeZone"),
        ("url_escaping_charset", "urlEscapingCharset"),
    ] {
        assert_eq!(canonical_setting_key(snake), snake);
        assert_eq!(canonical_setting_key(camel), snake);
    }
    assert_eq!(canonical_setting_key("locale"), "locale");
    assert_eq!(
        canonical_setting_key("template_exception_handler"),
        "template_exception_handler"
    );
    assert_eq!(
        canonical_setting_key("templateExceptionHandler"),
        "template_exception_handler"
    );
}

#[test]
fn canonical_setting_key_unknown_and_config_level_passthrough() {
    assert_eq!(canonical_setting_key("foo"), "foo");
    assert_eq!(canonical_setting_key("booolean_format"), "booolean_format");
    assert_eq!(canonical_setting_key("booleanFormatX"), "booleanFormatX");
    assert_eq!(
        canonical_setting_key("whitespace_stripping"),
        "whitespace_stripping"
    );
}

#[test]
fn output_limit_rejects_overflow_without_allocating() {
    assert!(ensure_output_limit(MAX_OUTPUT_BYTES - 1, 1).is_ok());
    assert!(ensure_output_limit(MAX_OUTPUT_BYTES, 1).is_err());
    assert!(ensure_output_limit(usize::MAX, 1).is_err());
}

#[test]
fn case_by_locale() {
    assert_eq!(locale_case("istanbul", "tr_TR", true), "\u{130}STANBUL");
    assert_eq!(locale_case("ISTANBUL", "tr", false), "\u{131}stanbul");
    assert_eq!(locale_case("i", "az-AZ", true), "\u{130}");
    assert_eq!(locale_case("i\u{307}x", "tr", true), "iX");
    assert_eq!(locale_case("I\u{307}X", "tr", false), "i\u{307}x");
    assert_eq!(locale_case("istanbul", "en_US", true), "ISTANBUL");
    assert_eq!(locale_case("ISTANBUL", "trx", false), "istanbul");
    assert_eq!(locale_case("stra\u{df}e", "de", true), "STRASSE");
    assert_eq!(locale_case("\u{391}\u{3a3}", "en", false), "\u{3b1}\u{3c2}");
    assert_eq!(locale_case("\u{3a3}", "tr", false), "\u{3c3}");
}

fn misc_message(e: freemarker::error::TemplateError) -> String {
    match e {
        freemarker::error::TemplateError::Misc { message } => message,
        other => panic!("not a plain error: {other:?}"),
    }
}

#[test]
fn boolean_format_setting() {
    assert_eq!(boolean_format("yes,no", true, false).unwrap(), "yes");
    assert_eq!(boolean_format("yes,no", false, false).unwrap(), "no");
    assert_eq!(boolean_format("a,b,c", false, false).unwrap(), "b,c");
    assert_eq!(boolean_format(",", true, false).unwrap(), "");
    assert_eq!(boolean_format("c", false, false).unwrap(), "false");
    assert_eq!(boolean_format("true,false", true, true).unwrap(), "true");
    let legacy = misc_message(boolean_format("true,false", true, false).unwrap_err());
    assert!(legacy.starts_with("Can't convert boolean to string automatically"));
    assert_eq!(
        misc_message(boolean_format("yes", true, false).unwrap_err()),
        "Setting value must be a string that contains two comma-separated values for true and false, or it must be \"c\", but it was \"yes\"."
    );
    assert_eq!(boolean_format_strings("true,false"), None);
    assert_eq!(boolean_format_strings("c"), Some(("true".to_string(), "false".to_string())));
    assert_eq!(boolean_format_strings("Y,N"), Some(("Y".to_string(), "N".to_string())));
    assert_eq!(boolean_format_strings("YN"), None);
}
