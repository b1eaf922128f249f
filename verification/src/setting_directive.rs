//! The `<#setting name=value>` directive: which setting a name changes and
//! to what, from the value's text, or why the pair is refused.
use vstd::prelude::*;
use crate::error::{is_misc, TemplateError};
use crate::output_format::{parse_format_name, OutputFormatKind};
use crate::settings::{bad_boolean_format_msg, bool_setting};
use crate::text::{contains_seq, push_str, str_eq};
use crate::time_zone::{java_zone_id, trimmed, zone_setting, zone_setting_panics, zone_unsliceable, TzSetting, ZoneSetting};

verus! {

/// The `auto_escaping` setting.
#[derive(Debug, Clone, Copy, PartialEq, Eq, Structural)]
pub enum AutoEscaping {
    On,
    Off,
    Default,
}

/// A setting changed by the directive, with its new value.
#[derive(Debug)]
pub enum SettingChange {
    Locale(String),
    NumberFormat(String),
    BooleanFormat(String),
    DateFormat(String),
    TimeFormat(String),
    DateTimeFormat(String),
    OutputEncoding(String),
    UrlEscapingCharset(String),
    /// Back to the time zone the configuration gave.
    TimeZoneDefault,
    /// A time zone and the id it reports.
    TimeZone(TzSetting, String),
    /// Accepted and without effect.
    SqlDateAndTimeTimeZone,
    ClassicCompatible(bool),
    WhitespaceStripping(bool),
    StrictSyntax(bool),
    OutputFormat(OutputFormatKind),
    /// The name of a C format, to be looked up among the registered ones.
    CFormat(String),
    AutoEscaping(AutoEscaping),
    TemplateExceptionHandler(String),
}

/// A time zone as a value: a fixed offset in seconds, or a zone name.
pub enum ZoneValue {
    Fixed(int),
    Named(Seq<char>),
}

/// The value of a setting change.
pub enum SettingValue {
    Locale(Seq<char>),
    NumberFormat(Seq<char>),
    BooleanFormat(Seq<char>),
    DateFormat(Seq<char>),
    TimeFormat(Seq<char>),
    DateTimeFormat(Seq<char>),
    OutputEncoding(Seq<char>),
    UrlEscapingCharset(Seq<char>),
    TimeZoneDefault,
    TimeZone(ZoneValue, Seq<char>),
    SqlDateAndTimeTimeZone,
    ClassicCompatible(bool),
    WhitespaceStripping(bool),
    StrictSyntax(bool),
    OutputFormat(OutputFormatKind),
    CFormat(Seq<char>),
    AutoEscaping(AutoEscaping),
    TemplateExceptionHandler(Seq<char>),
}

impl View for SettingChange {
    type V = SettingValue;

    open spec fn view(&self) -> SettingValue {
        match self {
            SettingChange::Locale(s) => SettingValue::Locale(s@),
            SettingChange::NumberFormat(s) => SettingValue::NumberFormat(s@),
            SettingChange::BooleanFormat(s) => SettingValue::BooleanFormat(s@),
            SettingChange::DateFormat(s) => SettingValue::DateFormat(s@),
            SettingChange::TimeFormat(s) => SettingValue::TimeFormat(s@),
            SettingChange::DateTimeFormat(s) => SettingValue::DateTimeFormat(s@),
            SettingChange::OutputEncoding(s) => SettingValue::OutputEncoding(s@),
            SettingChange::UrlEscapingCharset(s) => SettingValue::UrlEscapingCharset(s@),
            SettingChange::TimeZoneDefault => SettingValue::TimeZoneDefault,
            SettingChange::TimeZone(z, id) => SettingValue::TimeZone(
                match z {
                    TzSetting::Fixed(o) => ZoneValue::Fixed(*o as int),
                    TzSetting::Named(n) => ZoneValue::Named(n@),
                },
                id@,
            ),
            SettingChange::SqlDateAndTimeTimeZone => SettingValue::SqlDateAndTimeTimeZone,
            SettingChange::ClassicCompatible(b) => SettingValue::ClassicCompatible(*b),
            SettingChange::WhitespaceStripping(b) => SettingValue::WhitespaceStripping(*b),
            SettingChange::StrictSyntax(b) => SettingValue::StrictSyntax(*b),
            SettingChange::OutputFormat(k) => SettingValue::OutputFormat(*k),
            SettingChange::CFormat(s) => SettingValue::CFormat(s@),
            SettingChange::AutoEscaping(a) => SettingValue::AutoEscaping(*a),
            SettingChange::TemplateExceptionHandler(s) => SettingValue::TemplateExceptionHandler(s@),
        }
    }
}

/// A boolean setting from its text, or the message refusing the text.
pub open spec fn bool_change(v: Seq<char>, f: spec_fn(bool) -> SettingValue) -> Result<SettingValue, Seq<char>> {
    match bool_setting(v) {
        Ok(b) => Ok(f(b)),
        Err(m) => Err(m),
    }
}

/// The change that `<#setting key=v>` makes, `v` being the value's text, or
/// the message refusing it.
pub open spec fn setting_change(key: Seq<char>, v: Seq<char>) -> Result<SettingValue, Seq<char>> {
    if key == "locale"@ {
        Ok(SettingValue::Locale(v))
    } else if key == "number_format"@ {
        Ok(SettingValue::NumberFormat(v))
    } else if key == "boolean_format"@ {
        if v != "c"@ && !contains_seq(v, ","@) {
            Err(bad_boolean_format_msg(v))
        } else {
            Ok(SettingValue::BooleanFormat(v))
        }
    } else if key == "date_format"@ {
        Ok(SettingValue::DateFormat(v))
    } else if key == "time_format"@ {
        Ok(SettingValue::TimeFormat(v))
    } else if key == "datetime_format"@ {
        Ok(SettingValue::DateTimeFormat(v))
    } else if key == "output_encoding"@ {
        Ok(SettingValue::OutputEncoding(v))
    } else if key == "url_escaping_charset"@ {
        Ok(SettingValue::UrlEscapingCharset(v))
    } else if key == "time_zone"@ {
        if v == "default"@ {
            Ok(SettingValue::TimeZoneDefault)
        } else {
            match zone_setting(v) {
                ZoneSetting::Fixed(o) => Ok(SettingValue::TimeZone(ZoneValue::Fixed(o), java_zone_id(v))),
                ZoneSetting::Named => Ok(SettingValue::TimeZone(ZoneValue::Named(trimmed(v)), java_zone_id(v))),
                ZoneSetting::Invalid => Err("Unknown time zone: "@ + v),
            }
        }
    } else if key == "sql_date_and_time_time_zone"@ {
        Ok(SettingValue::SqlDateAndTimeTimeZone)
    } else if key == "classic_compatible"@ {
        bool_change(v, |b: bool| SettingValue::ClassicCompatible(b))
    } else if key == "whitespace_stripping"@ {
        bool_change(v, |b: bool| SettingValue::WhitespaceStripping(b))
    } else if key == "strict_syntax"@ {
        bool_change(v, |b: bool| SettingValue::StrictSyntax(b))
    } else if key == "output_format"@ {
        match parse_format_name(v) {
            Some(k) => Ok(SettingValue::OutputFormat(k)),
            None => Err("Unknown output format: "@ + v),
        }
    } else if key == "c_format"@ {
        Ok(SettingValue::CFormat(v))
    } else if key == "auto_escaping"@ {
        if v == "on"@ {
            Ok(SettingValue::AutoEscaping(AutoEscaping::On))
        } else if v == "off"@ {
            Ok(SettingValue::AutoEscaping(AutoEscaping::Off))
        } else if v == "default"@ {
            Ok(SettingValue::AutoEscaping(AutoEscaping::Default))
        } else {
            Err("Invalid auto_escaping value: "@ + v)
        }
    } else if key == "template_exception_handler"@ {
        if v == "rethrow"@ || v == "debug"@ || v == "html_debug"@ || v == "ignore"@ {
            Ok(SettingValue::TemplateExceptionHandler(v))
        } else {
            Err("Invalid template_exception_handler value: "@ + v
                + ". It must be one of: rethrow, debug, html_debug, ignore"@)
        }
    } else {
        Err("Unsupported setting: "@ + key)
    }
}

/// Whether reading the value would panic: a time zone whose offset cannot
/// be sliced out or does not fit.
pub open spec fn setting_panics(key: Seq<char>, v: Seq<char>) -> bool {
    key == "time_zone"@ && v != "default"@ && (zone_setting_panics(v) || zone_unsliceable(v))
}

/// A message after a fixed text.
fn msg_with(prefix: &str, v: &str) -> (r: TemplateError)
    ensures
        is_misc(r, prefix@ + v@),
{
    let mut m = String::from_str(prefix);
    push_str(&mut m, v);
    TemplateError::misc(m)
}

/// A boolean setting from its text.
fn bool_of(v: &str) -> (r: Result<bool, TemplateError>)
    ensures
        match bool_setting(v@) {
            Ok(b) => r == Ok::<bool, TemplateError>(b),
            Err(m) => r matches Err(e) && is_misc(e, m),
        },
{
    crate::settings::parse_bool_setting(v)
}

/// `<#setting key=v>`, `v` being the text of the value: the change it
/// makes, or why it is refused (see `setting_change`).
pub fn exec_setting(key: &str, v: &str) -> (r: Result<SettingChange, TemplateError>)
    requires
        !setting_panics(key@, v@),
    ensures
        match setting_change(key@, v@) {
            Ok(c) => r matches Ok(x) && x@ == c,
            Err(m) => r matches Err(e) && is_misc(e, m),
        },
{
    let text = String::from_str(v);
    if str_eq(key, "locale") {
        Ok(SettingChange::Locale(text))
    } else if str_eq(key, "number_format") {
        Ok(SettingChange::NumberFormat(text))
    } else if str_eq(key, "boolean_format") {
        if !str_eq(v, "c") && !crate::text::contains_str(v, ",") {
            let mut m = String::from_str(
                "Setting value must be a string that contains two comma-separated values for true and false, or it must be \"c\", but it was ",
            );
            let q = crate::settings::debug_text(v);
            push_str(&mut m, q.as_str());
            push_str(&mut m, ".");
            Err(TemplateError::misc(m))
        } else {
            Ok(SettingChange::BooleanFormat(text))
        }
    } else if str_eq(key, "date_format") {
        Ok(SettingChange::DateFormat(text))
    } else if str_eq(key, "time_format") {
        Ok(SettingChange::TimeFormat(text))
    } else if str_eq(key, "datetime_format") {
        Ok(SettingChange::DateTimeFormat(text))
    } else if str_eq(key, "output_encoding") {
        Ok(SettingChange::OutputEncoding(text))
    } else if str_eq(key, "url_escaping_charset") {
        Ok(SettingChange::UrlEscapingCharset(text))
    } else if str_eq(key, "time_zone") {
        if str_eq(v, "default") {
            Ok(SettingChange::TimeZoneDefault)
        } else {
            match TzSetting::from_str(v) {
                Ok(z) => {
                    let id = crate::time_zone::java_time_zone_id(v);
                    Ok(SettingChange::TimeZone(z, id))
                },
                Err(_) => Err(msg_with("Unknown time zone: ", v)),
            }
        }
    } else if str_eq(key, "sql_date_and_time_time_zone") {
        Ok(SettingChange::SqlDateAndTimeTimeZone)
    } else if str_eq(key, "classic_compatible") {
        Ok(SettingChange::ClassicCompatible(bool_of(v)?))
    } else if str_eq(key, "whitespace_stripping") {
        Ok(SettingChange::WhitespaceStripping(bool_of(v)?))
    } else if str_eq(key, "strict_syntax") {
        Ok(SettingChange::StrictSyntax(bool_of(v)?))
    } else if str_eq(key, "output_format") {
        match OutputFormatKind::parse(v) {
            Some(k) => Ok(SettingChange::OutputFormat(k)),
            None => Err(msg_with("Unknown output format: ", v)),
        }
    } else if str_eq(key, "c_format") {
        Ok(SettingChange::CFormat(text))
    } else if str_eq(key, "auto_escaping") {
        if str_eq(v, "on") {
            Ok(SettingChange::AutoEscaping(AutoEscaping::On))
        } else if str_eq(v, "off") {
            Ok(SettingChange::AutoEscaping(AutoEscaping::Off))
        } else if str_eq(v, "default") {
            Ok(SettingChange::AutoEscaping(AutoEscaping::Default))
        } else {
            Err(msg_with("Invalid auto_escaping value: ", v))
        }
    } else if str_eq(key, "template_exception_handler") {
        if str_eq(v, "rethrow") || str_eq(v, "debug") || str_eq(v, "html_debug") || str_eq(v, "ignore") {
            Ok(SettingChange::TemplateExceptionHandler(text))
        } else {
            let mut m = String::from_str("Invalid template_exception_handler value: ");
            push_str(&mut m, v);
            push_str(&mut m, ". It must be one of: rethrow, debug, html_debug, ignore");
            Err(TemplateError::misc(m))
        }
    } else {
        Err(msg_with("Unsupported setting: ", key))
    }
}

} // verus!
