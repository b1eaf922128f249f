use freemarker::error::TemplateError;
use freemarker::output_format::OutputFormatKind;
use freemarker::setting_directive::{exec_setting, AutoEscaping, SettingChange};
use freemarker::time_zone::TzSetting;

fn refused(key: &str, v: &str) -> String {
    match exec_setting(key, v).unwrap_err() {
        TemplateError::Misc { message } => message,
        other => panic!("unexpected error: {other:?}"),
    }
}

#[test]
fn text_settings_take_the_value() {
    assert!(matches!(exec_setting("locale", "de_DE").unwrap(), SettingChange::Locale(v) if v == "de_DE"));
    assert!(matches!(exec_setting("number_format", "0.##").unwrap(), SettingChange::NumberFormat(v) if v == "0.##"));
    assert!(matches!(exec_setting("datetime_format", "iso").unwrap(), SettingChange::DateTimeFormat(v) if v == "iso"));
    assert!(matches!(exec_setting("boolean_format", "yes,no").unwrap(), SettingChange::BooleanFormat(v) if v == "yes,no"));
    assert!(matches!(exec_setting("boolean_format", "c").unwrap(), SettingChange::BooleanFormat(v) if v == "c"));
    assert_eq!(
        refused("boolean_format", "yes"),
        "Setting value must be a string that contains two comma-separated values for true and false, or it must be \"c\", but it was \"yes\"."
    );
}

#[test]
fn time_zone_settings() {
    assert!(matches!(exec_setting("time_zone", "default").unwrap(), SettingChange::TimeZoneDefault));
    match exec_setting("time_zone", "GMT+2").unwrap() {
        SettingChange::TimeZone(TzSetting::Fixed(o), id) => {
            assert_eq!(o, 7200);
            assert_eq!(id, "GMT+02:00");
        },
        other => panic!("unexpected change: {other:?}"),
    }
    match exec_setting("time_zone", "Europe/Paris").unwrap() {
        SettingChange::TimeZone(TzSetting::Named(n), id) => {
            assert_eq!(n, "Europe/Paris");
            assert_eq!(id, "Europe/Paris");
        },
        other => panic!("unexpected change: {other:?}"),
    }
    assert_eq!(refused("time_zone", "Nowhere/City"), "Unknown time zone: Nowhere/City");
}

#[test]
fn flags_formats_and_handlers() {
    assert!(matches!(exec_setting("classic_compatible", "yes").unwrap(), SettingChange::ClassicCompatible(true)));
    assert!(matches!(exec_setting("whitespace_stripping", "n").unwrap(), SettingChange::WhitespaceStripping(false)));
    assert_eq!(refused("strict_syntax", "maybe"), "Invalid boolean value: maybe");
    assert!(matches!(exec_setting("output_format", "html").unwrap(), SettingChange::OutputFormat(OutputFormatKind::Html)));
    assert_eq!(refused("output_format", "PDF"), "Unknown output format: PDF");
    assert!(matches!(exec_setting("auto_escaping", "off").unwrap(), SettingChange::AutoEscaping(AutoEscaping::Off)));
    assert_eq!(refused("auto_escaping", "sometimes"), "Invalid auto_escaping value: sometimes");
    assert!(matches!(exec_setting("template_exception_handler", "ignore").unwrap(), SettingChange::TemplateExceptionHandler(v) if v == "ignore"));
    assert_eq!(
        refused("template_exception_handler", "loud"),
        "Invalid template_exception_handler value: loud. It must be one of: rethrow, debug, html_debug, ignore"
    );
    assert!(matches!(exec_setting("sql_date_and_time_time_zone", "UTC").unwrap(), SettingChange::SqlDateAndTimeTimeZone));
    assert_eq!(refused("colour", "red"), "Unsupported setting: colour");
}
