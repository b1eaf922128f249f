use freemarker::error::TemplateError;
use freemarker::markup::convert_markup_or_bypass;
use freemarker::output_format::OutputFormatKind;
use freemarker::value::TModel;

fn markup(format: OutputFormatKind, text: &str, plain: Option<&str>) -> TModel {
    TModel::Markup { format, markup: text.to_string(), plain: plain.map(|p| p.to_string()) }
}

fn parts(m: TModel) -> (OutputFormatKind, String, Option<String>) {
    match m {
        TModel::Markup { format, markup, plain } => (format, markup, plain),
        other => panic!("not markup: {other:?}"),
    }
}

#[test]
fn markup_of_the_current_format_is_kept() {
    let m = markup(OutputFormatKind::Html, "&lt;a&gt;", Some("<a>"));
    let (f, t, p) = parts(convert_markup_or_bypass(&m, OutputFormatKind::Html, "esc").unwrap());
    assert_eq!(f, OutputFormatKind::Html);
    assert_eq!(t, "&lt;a&gt;");
    assert_eq!(p.as_deref(), Some("<a>"));
    let (f, t, _) = parts(convert_markup_or_bypass(&m, OutputFormatKind::PlainText, "esc").unwrap());
    assert_eq!(f, OutputFormatKind::Html);
    assert_eq!(t, "&lt;a&gt;");
}

#[test]
fn markup_of_another_format_is_escaped_again() {
    let m = markup(OutputFormatKind::Html, "{x}", Some("{x}'"));
    let (f, t, p) = parts(convert_markup_or_bypass(&m, OutputFormatKind::Rtf, "esc").unwrap());
    assert_eq!(f, OutputFormatKind::Rtf);
    assert_eq!(t, "\\{x\\}'");
    assert_eq!(p.as_deref(), Some("{x}'"));
    let (f, t, _) = parts(convert_markup_or_bypass(&m, OutputFormatKind::Xml, "no_esc").unwrap());
    assert_eq!(f, OutputFormatKind::Xml);
    assert_eq!(t, "{x}&apos;");
}

#[test]
fn markup_without_plain_text_cannot_change_format() {
    let m = markup(OutputFormatKind::Html, "<b>", None);
    match convert_markup_or_bypass(&m, OutputFormatKind::Xml, "no_esc").unwrap_err() {
        TemplateError::Misc { message } => assert_eq!(
            message,
            "The left side operand of ?no_esc is in HTML format, which differs from the current output format, XML. Conversion wasn't possible."
        ),
        other => panic!("unexpected error: {other:?}"),
    }
    let s = TModel::Scalar("x".to_string());
    assert!(matches!(convert_markup_or_bypass(&s, OutputFormatKind::Xml, "esc").unwrap(), TModel::Scalar(t) if t == "x"));
}
