use freemarker::ast::BuiltinVar;
use freemarker::setting_directive::exec_setting;
use freemarker::template_settings::{now_at, now_variable, settings_variable_of, Settings};
use freemarker::time_zone::TzSetting;
use freemarker::value::{DateType, TModel};

fn text(v: BuiltinVar, s: &Settings) -> String {
    match settings_variable_of(v, s) {
        Some(TModel::Scalar(t)) => t,
        Some(TModel::Nothing) => "<null>".to_string(),
        Some(TModel::Boolean(b)) => b.to_string(),
        other => panic!("unexpected value: {other:?}"),
    }
}

fn set(s: &mut Settings, key: &str, v: &str) {
    let change = exec_setting(key, v).unwrap();
    s.apply(change, TzSetting::Fixed(0), "GMT+00:00".to_string());
}

#[test]
fn defaults_read_as_variables() {
    let s = Settings::new();
    assert_eq!(text(BuiltinVar::Locale, &s), "en_US");
    assert_eq!(text(BuiltinVar::Lang, &s), "en");
    assert_eq!(text(BuiltinVar::LocaleObject, &s), "java.util.Locale \"en_US\"");
    assert_eq!(text(BuiltinVar::OutputEncoding, &s), "UTF-8");
    assert_eq!(text(BuiltinVar::UrlEscapingCharset, &s), "<null>");
    assert_eq!(text(BuiltinVar::Version, &s), "2.3.34");
    assert_eq!(text(BuiltinVar::IncompatibleImprovements, &s), "2.3.34");
    assert_eq!(text(BuiltinVar::OutputFormat, &s), "plainText");
    assert_eq!(text(BuiltinVar::TimeZone, &s), "GMT+00:00");
    assert_eq!(text(BuiltinVar::True, &s), "true");
    assert!(settings_variable_of(BuiltinVar::Globals, &s).is_none());
    assert_eq!(s.boolean_format, "true,false");
    assert!(s.whitespace_stripping);
}

#[test]
fn settings_change_what_variables_read() {
    let mut s = Settings::new();
    set(&mut s, "locale", "tr_TR");
    assert_eq!(text(BuiltinVar::Locale, &s), "tr_TR");
    assert_eq!(text(BuiltinVar::Lang, &s), "tr");
    set(&mut s, "time_zone", "GMT-5");
    assert_eq!(text(BuiltinVar::TimeZone, &s), "GMT-05:00");
    assert!(matches!(s.time_zone, TzSetting::Fixed(-18000)));
    set(&mut s, "time_zone", "default");
    assert_eq!(text(BuiltinVar::TimeZone, &s), "GMT+00:00");
    set(&mut s, "output_format", "XML");
    assert_eq!(text(BuiltinVar::OutputFormat, &s), "XML");
    set(&mut s, "output_encoding", "  ");
    assert_eq!(text(BuiltinVar::OutputEncoding, &s), "<null>");
    set(&mut s, "classic_compatible", "true");
    assert!(s.classic_compatible);
}

#[test]
fn now_is_a_date_time() {
    match now_at(1234) {
        TModel::Date(d) => {
            assert_eq!(d.millis, 1234);
            assert_eq!(d.kind, DateType::DateTime);
        },
        other => panic!("unexpected value: {other:?}"),
    }
    match now_variable() {
        TModel::Date(d) => {
            assert_eq!(d.kind, DateType::DateTime);
            assert!(d.millis > 1_600_000_000_000);
        },
        other => panic!("unexpected value: {other:?}"),
    }
}
