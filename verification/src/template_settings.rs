//! The settings a template runs with, how `<#setting>` changes them, and
//! the built-in variables (`.locale`, `.lang`, `.output_format`, `.now`,
//! ...) that read them.
use vstd::prelude::*;
use crate::ast::BuiltinVar;
use crate::output_format::{format_name, OutputFormatKind};
use crate::setting_directive::{AutoEscaping, SettingChange, SettingValue, ZoneValue};
use crate::strings::locale_language;
use crate::text::{chars_of, decimal, push_str, string_from_chars};
use crate::time_zone::{trimmed, TzSetting};
use crate::value::{DateType, DateValue, TModel, Val};
use crate::version::Version;

verus! {

/// The settings a template runs with.
pub struct Settings {
    pub locale: String,
    pub number_format: String,
    pub boolean_format: String,
    pub date_format: String,
    pub time_format: String,
    pub date_time_format: String,
    pub output_encoding: String,
    pub url_escaping_charset: String,
    pub time_zone: TzSetting,
    /// The id that `.time_zone` reports.
    pub time_zone_id: String,
    pub classic_compatible: bool,
    pub whitespace_stripping: bool,
    pub strict_syntax: bool,
    pub output_format: OutputFormatKind,
    /// Name of the C format.
    pub c_format: String,
    pub auto_escaping: AutoEscaping,
    pub template_exception_handler: String,
    pub incompatible_improvements: Version,
}

/// Settings as values.
pub struct SettingsView {
    pub locale: Seq<char>,
    pub number_format: Seq<char>,
    pub boolean_format: Seq<char>,
    pub date_format: Seq<char>,
    pub time_format: Seq<char>,
    pub date_time_format: Seq<char>,
    pub output_encoding: Seq<char>,
    pub url_escaping_charset: Seq<char>,
    pub time_zone: ZoneValue,
    pub time_zone_id: Seq<char>,
    pub classic_compatible: bool,
    pub whitespace_stripping: bool,
    pub strict_syntax: bool,
    pub output_format: OutputFormatKind,
    pub c_format: Seq<char>,
    pub auto_escaping: AutoEscaping,
    pub template_exception_handler: Seq<char>,
    pub incompatible_improvements: Version,
}

/// A time zone setting as a value.
pub open spec fn zone_value(z: TzSetting) -> ZoneValue {
    match z {
        TzSetting::Fixed(o) => ZoneValue::Fixed(o as int),
        TzSetting::Named(n) => ZoneValue::Named(n@),
    }
}

impl View for Settings {
    type V = SettingsView;

    open spec fn view(&self) -> SettingsView {
        SettingsView {
            locale: self.locale@,
            number_format: self.number_format@,
            boolean_format: self.boolean_format@,
            date_format: self.date_format@,
            time_format: self.time_format@,
            date_time_format: self.date_time_format@,
            output_encoding: self.output_encoding@,
            url_escaping_charset: self.url_escaping_charset@,
            time_zone: zone_value(self.time_zone),
            time_zone_id: self.time_zone_id@,
            classic_compatible: self.classic_compatible,
            whitespace_stripping: self.whitespace_stripping,
            strict_syntax: self.strict_syntax,
            output_format: self.output_format,
            c_format: self.c_format@,
            auto_escaping: self.auto_escaping,
            template_exception_handler: self.template_exception_handler@,
            incompatible_improvements: self.incompatible_improvements,
        }
    }
}

/// The settings before any change: locale `en_US`, time zone GMT, number
/// format `number`, the legacy boolean format `true,false`, empty date
/// formats, plain-text output, `JavaScript or JSON` C format, white-space
/// stripping on, output encoding `UTF-8`, errors rethrown, and the current
/// incompatible improvements.
pub open spec fn default_settings() -> SettingsView {
    SettingsView {
        locale: "en_US"@,
        number_format: "number"@,
        boolean_format: "true,false"@,
        date_format: Seq::empty(),
        time_format: Seq::empty(),
        date_time_format: Seq::empty(),
        output_encoding: "UTF-8"@,
        url_escaping_charset: Seq::empty(),
        time_zone: ZoneValue::Fixed(0),
        time_zone_id: "GMT+00:00"@,
        classic_compatible: false,
        whitespace_stripping: true,
        strict_syntax: false,
        output_format: OutputFormatKind::PlainText,
        c_format: "JavaScript or JSON"@,
        auto_escaping: AutoEscaping::Default,
        template_exception_handler: "rethrow"@,
        incompatible_improvements: Version { major: 2, minor: 3, micro: 34 },
    }
}

impl Settings {
    /// The settings before any change (see `default_settings`).
    pub fn new() -> (r: Settings)
        ensures
            r@ == default_settings(),
    {
        Settings {
            locale: String::from_str("en_US"),
            number_format: String::from_str("number"),
            boolean_format: String::from_str("true,false"),
            date_format: String::new(),
            time_format: String::new(),
            date_time_format: String::new(),
            output_encoding: String::from_str("UTF-8"),
            url_escaping_charset: String::new(),
            time_zone: TzSetting::Fixed(0),
            time_zone_id: String::from_str("GMT+00:00"),
            classic_compatible: false,
            whitespace_stripping: true,
            strict_syntax: false,
            output_format: OutputFormatKind::PlainText,
            c_format: String::from_str("JavaScript or JSON"),
            auto_escaping: AutoEscaping::Default,
            template_exception_handler: String::from_str("rethrow"),
            incompatible_improvements: Version::v2_3_34(),
        }
    }
}

/// The settings after a change; `TimeZoneDefault` goes back to the zone
/// `base` with id `base_id` that the configuration gave.
pub open spec fn applied(s: SettingsView, c: SettingValue, base: ZoneValue, base_id: Seq<char>) -> SettingsView {
    match c {
        SettingValue::Locale(v) => SettingsView { locale: v, ..s },
        SettingValue::NumberFormat(v) => SettingsView { number_format: v, ..s },
        SettingValue::BooleanFormat(v) => SettingsView { boolean_format: v, ..s },
        SettingValue::DateFormat(v) => SettingsView { date_format: v, ..s },
        SettingValue::TimeFormat(v) => SettingsView { time_format: v, ..s },
        SettingValue::DateTimeFormat(v) => SettingsView { date_time_format: v, ..s },
        SettingValue::OutputEncoding(v) => SettingsView { output_encoding: v, ..s },
        SettingValue::UrlEscapingCharset(v) => SettingsView { url_escaping_charset: v, ..s },
        SettingValue::TimeZoneDefault => SettingsView { time_zone: base, time_zone_id: base_id, ..s },
        SettingValue::TimeZone(z, id) => SettingsView { time_zone: z, time_zone_id: id, ..s },
        SettingValue::SqlDateAndTimeTimeZone => s,
        SettingValue::ClassicCompatible(b) => SettingsView { classic_compatible: b, ..s },
        SettingValue::WhitespaceStripping(b) => SettingsView { whitespace_stripping: b, ..s },
        SettingValue::StrictSyntax(b) => SettingsView { strict_syntax: b, ..s },
        SettingValue::OutputFormat(k) => SettingsView { output_format: k, ..s },
        SettingValue::CFormat(v) => SettingsView { c_format: v, ..s },
        SettingValue::AutoEscaping(a) => SettingsView { auto_escaping: a, ..s },
        SettingValue::TemplateExceptionHandler(v) => SettingsView { template_exception_handler: v, ..s },
    }
}

impl Settings {
    /// Makes a change that `<#setting>` decided (see `applied`).
    pub fn apply(&mut self, change: SettingChange, base: TzSetting, base_id: String)
        ensures
            final(self)@ == applied(old(self)@, change@, zone_value(base), base_id@),
    {
        match change {
            SettingChange::Locale(v) => self.locale = v,
            SettingChange::NumberFormat(v) => self.number_format = v,
            SettingChange::BooleanFormat(v) => self.boolean_format = v,
            SettingChange::DateFormat(v) => self.date_format = v,
            SettingChange::TimeFormat(v) => self.time_format = v,
            SettingChange::DateTimeFormat(v) => self.date_time_format = v,
            SettingChange::OutputEncoding(v) => self.output_encoding = v,
            SettingChange::UrlEscapingCharset(v) => self.url_escaping_charset = v,
            SettingChange::TimeZoneDefault => {
                self.time_zone = base;
                self.time_zone_id = base_id;
            },
            SettingChange::TimeZone(z, id) => {
                self.time_zone = z;
                self.time_zone_id = id;
            },
            SettingChange::SqlDateAndTimeTimeZone => {},
            SettingChange::ClassicCompatible(b) => self.classic_compatible = b,
            SettingChange::WhitespaceStripping(b) => self.whitespace_stripping = b,
            SettingChange::StrictSyntax(b) => self.strict_syntax = b,
            SettingChange::OutputFormat(k) => self.output_format = k,
            SettingChange::CFormat(v) => self.c_format = v,
            SettingChange::AutoEscaping(a) => self.auto_escaping = a,
            SettingChange::TemplateExceptionHandler(v) => self.template_exception_handler = v,
        }
    }
}

/// A setting text as a variable: null when it is empty after trimming,
/// else the trimmed text.
pub open spec fn optional_text(s: Seq<char>) -> Val {
    if trimmed(s).len() == 0 {
        Val::Nothing
    } else {
        Val::Scalar(trimmed(s))
    }
}

/// The built-in variables read from the settings: `.true`, `.false`,
/// `.locale`, `.locale_object`, `.lang`, `.output_encoding`,
/// `.url_escaping_charset`, `.version`, `.incompatible_improvements`,
/// `.output_format`, `.time_zone`.  The others depend on the running
/// template, not on the settings.
pub open spec fn settings_variable(v: BuiltinVar, s: SettingsView) -> Option<Val> {
    match v {
        BuiltinVar::True => Some(Val::Boolean(true)),
        BuiltinVar::False => Some(Val::Boolean(false)),
        BuiltinVar::Locale => Some(Val::Scalar(s.locale)),
        BuiltinVar::LocaleObject => Some(Val::Scalar("java.util.Locale \""@ + s.locale + "\""@)),
        BuiltinVar::Lang => Some(Val::Scalar(locale_language(s.locale))),
        BuiltinVar::OutputEncoding => Some(optional_text(s.output_encoding)),
        BuiltinVar::UrlEscapingCharset => Some(optional_text(s.url_escaping_charset)),
        BuiltinVar::Version => Some(Val::Scalar("2.3.34"@)),
        BuiltinVar::IncompatibleImprovements => Some(
            Val::Scalar(
                decimal(s.incompatible_improvements.major as nat) + "."@ + decimal(
                    s.incompatible_improvements.minor as nat,
                ) + "."@ + decimal(s.incompatible_improvements.micro as nat),
            ),
        ),
        BuiltinVar::OutputFormat => Some(Val::Scalar(format_name(s.output_format))),
        BuiltinVar::TimeZone => Some(Val::Scalar(s.time_zone_id)),
        _ => None,
    }
}

/// The trimmed text, or null when nothing is left.
fn optional_text_of(s: &String) -> (r: TModel)
    ensures
        r@ == optional_text(s@),
{
    let t = crate::time_zone::trim_text(s.as_str());
    if t.len() == 0 {
        TModel::Nothing
    } else {
        TModel::Scalar(string_from_chars(&t))
    }
}

/// The language part of a locale name.
fn language_of(locale: &str) -> (r: String)
    ensures
        r@ == locale_language(locale@),
{
    let cs = chars_of(locale);
    let mut lang: Vec<char> = Vec::new();
    let mut i: usize = 0;
    proof {
        assert(cs@.skip(0) =~= cs@);
        assert(lang@ + locale_language(cs@.skip(0)) =~= locale_language(cs@));
    }
    while i < cs.len() && cs[i] != '_' && cs[i] != '-'
        invariant
            i <= cs.len(),
            cs@ == locale@,
            lang@ + locale_language(cs@.skip(i as int)) == locale_language(cs@),
        decreases cs.len() - i,
    {
        let ghost before = lang@;
        lang.push(cs[i]);
        proof {
            let t = cs@.skip(i as int);
            assert(t.skip(1) =~= cs@.skip(i as int + 1));
            assert(before + (seq![t[0]] + locale_language(t.skip(1))) =~= lang@ + locale_language(
                cs@.skip(i as int + 1),
            ));
        }
        i += 1;
    }
    proof {
        assert(locale_language(cs@.skip(i as int)) =~= Seq::<char>::empty());
        assert(lang@ + Seq::<char>::empty() =~= lang@);
    }
    string_from_chars(&lang)
}

/// A built-in variable read from the settings (see `settings_variable`);
/// `None` for the variables that depend on the running template.
pub fn settings_variable_of(v: BuiltinVar, s: &Settings) -> (r: Option<TModel>)
    ensures
        match settings_variable(v, s@) {
            Some(x) => r matches Some(m) && m@ == x,
            None => r is None,
        },
{
    match v {
        BuiltinVar::True => Some(TModel::Boolean(true)),
        BuiltinVar::False => Some(TModel::Boolean(false)),
        BuiltinVar::Locale => Some(TModel::Scalar(s.locale.clone())),
        BuiltinVar::LocaleObject => {
            let mut t = String::from_str("java.util.Locale \"");
            push_str(&mut t, s.locale.as_str());
            push_str(&mut t, "\"");
            Some(TModel::Scalar(t))
        },
        BuiltinVar::Lang => Some(TModel::Scalar(language_of(s.locale.as_str()))),
        BuiltinVar::OutputEncoding => Some(optional_text_of(&s.output_encoding)),
        BuiltinVar::UrlEscapingCharset => Some(optional_text_of(&s.url_escaping_charset)),
        BuiltinVar::Version => Some(TModel::Scalar(String::from_str("2.3.34"))),
        BuiltinVar::IncompatibleImprovements => {
            let v = s.incompatible_improvements;
            let mut t = crate::text::u64_text(v.major as u64);
            push_str(&mut t, ".");
            let b = crate::text::u64_text(v.minor as u64);
            push_str(&mut t, b.as_str());
            push_str(&mut t, ".");
            let c = crate::text::u64_text(v.micro as u64);
            push_str(&mut t, c.as_str());
            Some(TModel::Scalar(t))
        },
        BuiltinVar::OutputFormat => Some(TModel::Scalar(String::from_str(s.output_format.name()))),
        BuiltinVar::TimeZone => Some(TModel::Scalar(s.time_zone_id.clone())),
        _ => None,
    }
}

/// `chrono::Utc::now()` in milliseconds since the epoch.  Nothing is stated
/// of the result: it is the time of the call.
#[verifier::external_body]
fn now_millis() -> (r: i64) {
    chrono::Utc::now().timestamp_millis()
}

/// `.now` at the instant `millis`: a date-time value.
pub fn now_at(millis: i64) -> (r: TModel)
    ensures
        r@ == Val::Date(DateValue { millis, kind: DateType::DateTime }),
{
    TModel::Date(DateValue { millis, kind: DateType::DateTime })
}

/// `.now`: the current instant as a date-time value.
pub fn now_variable() -> (r: TModel)
    ensures
        r@ matches Val::Date(d) && d.kind == DateType::DateTime,
{
    now_at(now_millis())
}

} // verus!
