//! `?esc` and `?no_esc` on a value that is already markup: kept as it is
//! when the current output format can take it, escaped again from its plain
//! text when that is known, refused otherwise.
use vstd::prelude::*;
use crate::error::{is_misc, TemplateError};
use crate::output_format::{escape_markup, escape_text, format_mixing_allowed, format_name, OutputFormatKind};
use crate::text::push_str;
use crate::value::{TModel, Val};

verus! {

/// Error of markup that neither fits the current output format nor has the
/// plain text it was escaped from.
pub open spec fn conversion_msg(key: Seq<char>, from: OutputFormatKind, current: OutputFormatKind) -> Seq<char> {
    "The left side operand of ?"@ + key + " is in "@ + format_name(from)
        + " format, which differs from the current output format, "@ + format_name(current)
        + ". Conversion wasn't possible."@
}

/// A value under `?esc` or `?no_esc` (named `key`) in output of format
/// `current`: markup of that format, or any value when the plain-text format
/// allows mixing, stays as it is; markup of another format is escaped again
/// for `current` from its plain text, or refused when that is unknown.
pub open spec fn converted_markup(v: Val, current: OutputFormatKind, key: Seq<char>) -> Result<Val, Seq<char>> {
    match v {
        Val::Markup { format, plain, .. } => if format == current || current == OutputFormatKind::PlainText {
            Ok(v)
        } else {
            match plain {
                Some(p) => Ok(Val::Markup { format: current, markup: escape_text(current, p), plain: Some(p) }),
                None => Err(conversion_msg(key, format, current)),
            }
        },
        _ => Ok(v),
    }
}

/// `?esc` / `?no_esc` on a value that may already be markup, in output of
/// format `current`.
pub fn convert_markup_or_bypass(m: &TModel, current: OutputFormatKind, key: &str) -> (r: Result<
    TModel,
    TemplateError,
>)
    ensures
        match converted_markup(m@, current, key@) {
            Ok(v) => r matches Ok(x) && x@ == v,
            Err(msg) => r matches Err(e) && is_misc(e, msg),
        },
{
    match m {
        TModel::Markup { format, plain, .. } => {
            if *format == current || format_mixing_allowed(current) {
                return Ok(m.copy_model());
            }
            match plain {
                Some(p) => {
                    let markup = escape_markup(current, p.as_str());
                    Ok(TModel::Markup { format: current, markup, plain: Some(p.clone()) })
                },
                None => {
                    let mut msg = String::from_str("The left side operand of ?");
                    push_str(&mut msg, key);
                    push_str(&mut msg, " is in ");
                    push_str(&mut msg, format.name());
                    push_str(&mut msg, " format, which differs from the current output format, ");
                    push_str(&mut msg, current.name());
                    push_str(&mut msg, ". Conversion wasn't possible.");
                    Err(TemplateError::misc(msg))
                },
            }
        },
        _ => Ok(m.copy_model()),
    }
}

} // verus!
