//! Evaluation of expressions against the variables in scope: literals,
//! variables, `!`, `&&`, `||`, comparisons, `x.name`, `x[key]`, `x!d`,
//! `x??`, list literals and the built-ins on sequences and strings.
use vstd::prelude::*;
use crate::ast::{Expr, ExprKind};
use crate::compare::CmpOp;
use crate::describe::{builtin_chain, desc};
use crate::text::str_eq;
use crate::error::TemplateError;
use crate::sequences::{scalar_text, scalar_text_of, val_ok};
use crate::sort::hash_get;
use crate::value::{entry_vals, type_name_of, vals, TModel, Val};

verus! {

/// What an evaluation error says: a missing value (with the expression's
/// description), a type mismatch (expected, found), or a message.
pub enum Fail {
    Missing(Seq<char>),
    Mismatch(Seq<char>, Seq<char>),
    Msg(Seq<char>),
}

/// What an error says.
pub open spec fn fail_of(e: TemplateError) -> Fail {
    match e {
        TemplateError::InvalidReference { name } => Fail::Missing(name@),
        TemplateError::TypeMismatch { expected, actual } => Fail::Mismatch(expected@, actual@),
        TemplateError::Misc { message } => Fail::Msg(message@),
    }
}

/// The variables in scope, innermost first (the first binding of a name
/// wins), and whether the classic-compatible mode is on (a missing variable
/// is then null instead of an error).
pub struct Env {
    pub vars: Vec<(String, TModel)>,
    pub classic_compatible: bool,
}

impl Env {
    /// The variables in scope, as values.
    pub open spec fn vars_view(&self) -> Seq<(Seq<char>, Val)> {
        entry_vals(self.vars@)
    }

    /// All variables hold well-formed values.
    pub open spec fn wf(&self) -> bool {
        forall|i: int| 0 <= i < self.vars_view().len() ==> val_ok(#[trigger] self.vars_view()[i].1)
    }
}

/// The value of a variable: its first binding, else null in the classic
/// mode, else a missing-value error.
pub open spec fn lookup(vars: Seq<(Seq<char>, Val)>, classic: bool, name: Seq<char>) -> Result<Val, Fail> {
    match hash_get(vars, name) {
        Some(v) => Ok(v),
        None => if classic {
            Ok(Val::Nothing)
        } else {
            Err(Fail::Missing(name))
        },
    }
}

/// A value as a condition: a boolean is itself; in the classic mode a
/// missing value is false, strings, sequences, collections and hashes are
/// true when not empty, and other values are true; otherwise only booleans
/// are conditions.
pub open spec fn to_bool(v: Val, classic: bool) -> Result<bool, Fail> {
    match v {
        Val::Boolean(b) => Ok(b),
        _ => if !classic {
            Err(Fail::Mismatch("boolean"@, type_name_of(v)))
        } else {
            match v {
                Val::Nothing => Ok(false),
                Val::Sequence(s) => Ok(s.len() > 0),
                Val::Collection(s) => Ok(s.len() > 0),
                Val::Hash(es) => Ok(es.len() > 0),
                Val::Range(r) => Ok(r.unbounded || r.count > 0),
                _ => match scalar_text(v) {
                    Some(s) => Ok(s.len() > 0),
                    None => Ok(true),
                },
            }
        },
    }
}

/// The comparison operator of a comparison expression.
pub open spec fn cmp_op_of(k: ExprKind) -> Option<CmpOp> {
    match k {
        ExprKind::Eq(_, _) => Some(CmpOp::Eq),
        ExprKind::NotEq(_, _) => Some(CmpOp::NotEq),
        ExprKind::Gt(_, _) => Some(CmpOp::Gt),
        ExprKind::Gte(_, _) => Some(CmpOp::Gte),
        ExprKind::Lt(_, _) => Some(CmpOp::Lt),
        ExprKind::Lte(_, _) => Some(CmpOp::Lte),
        _ => None,
    }
}

/// Whether the lenient evaluation of `x!d`, `x??` and `?default` turns a
/// missing-value error of its target into null (only for a variable or a
/// parenthesized target).
pub open spec fn catches_missing(e: Expr) -> bool {
    e.kind is Paren || e.kind is Ident
}

/// The built-ins the evaluator knows.
pub open spec fn known_builtin(name: Seq<char>) -> bool {
    name == "size"@ || name == "first"@ || name == "last"@ || name == "reverse"@ || name == "sequence"@
        || name == "sort"@ || name == "sort_by"@ || name == "min"@ || name == "max"@ || name
        == "seq_contains"@ || name == "seq_index_of"@ || name == "seq_last_index_of"@ || name
        == "chunk"@ || name == "exists"@ || name == "default"@ || name == "is_string"@ || name
        == "is_number"@ || name == "is_boolean"@ || name == "is_date"@ || name == "is_hash"@
        || name == "length"@ || is_lambda_builtin(name) || is_if_unknown(name) || name == "markup_string"@
}

/// `?date_if_unknown`, `?time_if_unknown` and `?datetime_if_unknown`.
pub open spec fn is_if_unknown(name: Seq<char>) -> bool {
    name == "date_if_unknown"@ || name == "time_if_unknown"@ || name == "datetime_if_unknown"@
}

/// The kind of date that `?date_if_unknown` and its siblings give an
/// unknown date.
pub open spec fn if_unknown_kind(name: Seq<char>) -> crate::value::DateType {
    if name == "date_if_unknown"@ {
        crate::value::DateType::Date
    } else if name == "time_if_unknown"@ {
        crate::value::DateType::Time
    } else {
        crate::value::DateType::DateTime
    }
}

/// A date of unknown kind with the kind given; a date of known kind as it
/// is; anything else is no date.
pub open spec fn if_unknown_val(t: Val, kind: crate::value::DateType) -> Result<Val, Fail> {
    match t {
        Val::Date(d) => if d.kind != crate::value::DateType::Unknown {
            Ok(t)
        } else {
            Ok(Val::Date(crate::value::DateValue { kind, ..d }))
        },
        _ => Err(Fail::Mismatch("date"@, type_name_of(t))),
    }
}

/// `?markup_string`: the markup text of a markup value.
pub open spec fn markup_string_val(t: Val) -> Result<Val, Fail> {
    match t {
        Val::Markup { markup, .. } => Ok(Val::Scalar(markup)),
        _ => Err(Fail::Mismatch("markup output"@, type_name_of(t))),
    }
}

/// The built-ins that take a lambda: `?filter`, `?map`, `?take_while`,
/// `?drop_while`.
pub open spec fn is_lambda_builtin(name: Seq<char>) -> bool {
    name == "filter"@ || name == "map"@ || name == "take_while"@ || name == "drop_while"@
}

/// Whether the evaluator handles an expression: literals (numbers well
/// formed), variables, `( )`, `!`, `&&`, `||`, comparisons, `.name` and
/// `[key]` (not on `?string` and the like), `!`-defaults, `??`, list
/// literals and the known built-ins, down through all operands.
pub open spec fn evaluable(e: Expr) -> bool
    decreases e,
{
    match e.kind {
        ExprKind::Str(_) | ExprKind::Bool(_) | ExprKind::Ident(_) => true,
        ExprKind::Num(n) => n.wf(),
        ExprKind::Paren(x) => evaluable(*x),
        ExprKind::Not(x) => evaluable(*x),
        ExprKind::Exists(x) => evaluable(*x),
        ExprKind::And(a, b) => evaluable(*a) && evaluable(*b),
        ExprKind::Or(a, b) => evaluable(*a) && evaluable(*b),
        ExprKind::Eq(a, b) => evaluable(*a) && evaluable(*b),
        ExprKind::NotEq(a, b) => evaluable(*a) && evaluable(*b),
        ExprKind::Gt(a, b) => evaluable(*a) && evaluable(*b),
        ExprKind::Gte(a, b) => evaluable(*a) && evaluable(*b),
        ExprKind::Lt(a, b) => evaluable(*a) && evaluable(*b),
        ExprKind::Lte(a, b) => evaluable(*a) && evaluable(*b),
        ExprKind::Dot { target, .. } => builtin_chain(*target) is None && evaluable(*target),
        ExprKind::DynKey { target, key } => builtin_chain(*target) is None && evaluable(*target)
            && evaluable(*key),
        ExprKind::Default { target, default } => evaluable(*target) && match default {
            Some(d) => evaluable(*d),
            None => true,
        },
        ExprKind::ListLit(items) => all_evaluable(items@),
        ExprKind::BuiltIn { target, name, args } => known_builtin(name@) && evaluable(*target)
            && match args {
            Some(a) => if is_lambda_builtin(name@) {
                lambda_args_evaluable(a@)
            } else {
                all_evaluable(a@)
            },
            None => true,
        },
        _ => false,
    }
}

/// Whether every argument of a built-in that takes a lambda is one the
/// evaluator handles: a lambda whose body it handles, or any other
/// expression it handles.
pub open spec fn lambda_args_evaluable(es: Seq<Expr>) -> bool
    decreases es,
{
    if es.len() == 0 {
        true
    } else {
        lambda_args_evaluable(es.drop_last()) && match es.last().kind {
            ExprKind::Lambda { body, .. } => evaluable(*body),
            _ => evaluable(es.last()),
        }
    }
}

/// Whether every expression of a list is one the evaluator handles.
pub open spec fn all_evaluable(es: Seq<Expr>) -> bool
    decreases es,
{
    if es.len() == 0 {
        true
    } else {
        all_evaluable(es.drop_last()) && evaluable(es.last())
    }
}

/// `t.name` on the value of the target: a hash's entry (null when it has
/// none); a missing target is an error (null in the classic mode).
pub open spec fn dot_val(t: Val, name: Seq<char>, tdesc: Seq<char>, classic: bool) -> Result<Val, Fail> {
    match t {
        Val::Nothing => if classic {
            Ok(Val::Nothing)
        } else {
            Err(Fail::Missing(tdesc))
        },
        Val::Hash(es) => Ok(
            match hash_get(es, name) {
                Some(v) => v,
                None => Val::Nothing,
            },
        ),
        _ => Err(Fail::Mismatch("hash"@, type_name_of(t))),
    }
}

/// Message of a negative index into a range.
pub open spec fn range_index_msg(idx: int) -> Seq<char> {
    "Range item index "@ + crate::text::int_text(idx) + " is out of bounds."@
}

/// Message of a string index past the end.
pub open spec fn string_index_msg(idx: int, len: int) -> Seq<char> {
    "String index out of range: The index was "@ + crate::text::int_text(idx)
        + " (0-based), but the length of the string is only "@ + crate::text::int_text(len) + "."@
}

/// `t[n]` for a number key truncated to `idx`: an item of a sequence (null
/// past its end), a character of a string; a negative index is an error.
pub open spec fn index_val(t: Val, idx: int, kdesc: Seq<char>, tdesc: Seq<char>) -> Result<Val, Fail> {
    if idx < 0 {
        match t {
            Val::Range(_) => Err(Fail::Msg(range_index_msg(idx))),
            Val::Sequence(_) => Err(Fail::Missing(tdesc + "["@ + kdesc + "]"@)),
            _ => Err(Fail::Msg("Negative index not allowed: "@ + crate::text::int_text(idx))),
        }
    } else {
        match t {
            Val::Range(r) => if r.unbounded {
                if idx < 2147483647 {
                    Ok(Val::Number(crate::number::TNumber::Long((r.start + idx) as i64)))
                } else {
                    Err(Fail::Msg(range_index_msg(idx)))
                }
            } else if idx < r.count {
                Ok(Val::Number(crate::number::TNumber::Long(crate::sequences::range_item(r, idx) as i64)))
            } else {
                Ok(Val::Nothing)
            },
            Val::Sequence(items) => Ok(
                if idx < items.len() {
                    items[idx]
                } else {
                    Val::Nothing
                },
            ),
            _ => match scalar_text(t) {
                Some(s) => if idx < s.len() {
                    Ok(Val::Scalar(seq![s[idx]]))
                } else {
                    Err(Fail::Msg(string_index_msg(idx, s.len() as int)))
                },
                None => Err(Fail::Mismatch("sequence-or-string"@, type_name_of(t))),
            },
        }
    }
}

/// `t[k]` on the values of target and key: a number indexes, a range
/// slices, a string names a hash entry.
pub open spec fn dyn_key_val(t: Val, k: Val, kdesc: Seq<char>, tdesc: Seq<char>) -> Result<Val, Fail> {
    match k {
        Val::Number(n) => index_val(t, n.truncated(), kdesc, tdesc),
        Val::Range(r) => if crate::slicing::slice_len(t) is None {
            Err(Fail::Mismatch("sequence"@, type_name_of(t)))
        } else {
            match crate::slicing::slice_result(t, r) {
                Ok(v) => Ok(v),
                Err(m) => Err(Fail::Msg(m)),
            }
        },
        _ => match scalar_text(k) {
            Some(name) => match t {
                Val::Hash(es) => Ok(
                    match hash_get(es, name) {
                        Some(v) => v,
                        None => Val::Nothing,
                    },
                ),
                _ => Err(Fail::Mismatch("hash"@, type_name_of(t))),
            },
            None => Err(Fail::Mismatch("number, range, or string"@, type_name_of(k))),
        },
    }
}

/// A message turned into an evaluation error.
pub open spec fn msg_result<T>(r: Result<T, Seq<char>>) -> Result<T, Fail> {
    match r {
        Ok(v) => Ok(v),
        Err(m) => Err(Fail::Msg(m)),
    }
}

/// The value of an expression against the variables in scope.
pub open spec fn eval_val(vars: Seq<(Seq<char>, Val)>, classic: bool, e: Expr) -> Result<Val, Fail>
    decreases e, 2nat,
{
    match e.kind {
        ExprKind::Str(s) => Ok(Val::Scalar(s@)),
        ExprKind::Num(n) => Ok(Val::Number(n)),
        ExprKind::Bool(b) => Ok(Val::Boolean(b)),
        ExprKind::Ident(n) => lookup(vars, classic, n@),
        ExprKind::Paren(x) => eval_val(vars, classic, *x),
        ExprKind::Not(x) => match eval_val(vars, classic, *x) {
            Err(f) => Err(f),
            Ok(v) => match to_bool(v, classic) {
                Err(f) => Err(f),
                Ok(b) => Ok(Val::Boolean(!b)),
            },
        },
        ExprKind::And(a, b) => match eval_val(vars, classic, *a) {
            Err(f) => Err(f),
            Ok(va) => match to_bool(va, classic) {
                Err(f) => Err(f),
                Ok(false) => Ok(Val::Boolean(false)),
                Ok(true) => match eval_val(vars, classic, *b) {
                    Err(f) => Err(f),
                    Ok(vb) => match to_bool(vb, classic) {
                        Err(f) => Err(f),
                        Ok(x) => Ok(Val::Boolean(x)),
                    },
                },
            },
        },
        ExprKind::Or(a, b) => match eval_val(vars, classic, *a) {
            Err(f) => Err(f),
            Ok(va) => match to_bool(va, classic) {
                Err(f) => Err(f),
                Ok(true) => Ok(Val::Boolean(true)),
                Ok(false) => match eval_val(vars, classic, *b) {
                    Err(f) => Err(f),
                    Ok(vb) => match to_bool(vb, classic) {
                        Err(f) => Err(f),
                        Ok(x) => Ok(Val::Boolean(x)),
                    },
                },
            },
        },
        ExprKind::Eq(_, _) | ExprKind::NotEq(_, _) | ExprKind::Gt(_, _) | ExprKind::Gte(_, _)
        | ExprKind::Lt(_, _) | ExprKind::Lte(_, _) => compare_val(vars, classic, e),
        ExprKind::Dot { target, name } => match eval_val(vars, classic, *target) {
            Err(f) => Err(f),
            Ok(t) => dot_val(t, name@, desc(*target), classic),
        },
        ExprKind::DynKey { target, key } => match eval_val(vars, classic, *target) {
            Err(f) => Err(f),
            Ok(t) => if t is Nothing {
                if classic {
                    Ok(Val::Nothing)
                } else {
                    Err(Fail::Missing(desc(*target)))
                }
            } else {
                match eval_val(vars, classic, *key) {
                    Err(f) => Err(f),
                    Ok(k) => dyn_key_val(t, k, desc(*key), desc(*target)),
                }
            },
        },
        ExprKind::Default { target, default } => match lenient_val(vars, classic, *target) {
            Err(f) => Err(f),
            Ok(v) => if !(v is Nothing) {
                Ok(v)
            } else {
                match default {
                    Some(d) => eval_val(vars, classic, *d),
                    None => Ok(Val::Scalar(Seq::empty())),
                }
            },
        },
        ExprKind::Exists(t) => match lenient_val(vars, classic, *t) {
            Err(f) => Err(f),
            Ok(v) => Ok(Val::Boolean(!(v is Nothing))),
        },
        ExprKind::ListLit(items) => match eval_list(vars, classic, items@, items@.len()) {
            Err(f) => Err(f),
            Ok(vs) => Ok(Val::Sequence(vs)),
        },
        ExprKind::BuiltIn { .. } => builtin_val(vars, classic, e),
        _ => Err(Fail::Msg("..."@)),
    }
}

/// A comparison expression: both operands evaluated, then compared.
pub open spec fn compare_val(vars: Seq<(Seq<char>, Val)>, classic: bool, e: Expr) -> Result<Val, Fail>
    decreases e, 1nat,
{
    match e.kind {
        ExprKind::Eq(a, b) | ExprKind::NotEq(a, b) | ExprKind::Gt(a, b) | ExprKind::Gte(a, b)
        | ExprKind::Lt(a, b) | ExprKind::Lte(a, b) => match eval_val(vars, classic, *a) {
            Err(f) => Err(f),
            Ok(l) => match eval_val(vars, classic, *b) {
                Err(f) => Err(f),
                Ok(r) => match crate::compare::compare_result(l, r, cmp_op_of(e.kind)->Some_0) {
                    Ok(x) => Ok(Val::Boolean(x)),
                    Err(m) => Err(Fail::Msg(m)),
                },
            },
        },
        _ => Err(Fail::Msg(Seq::empty())),
    }
}

/// The value of a target evaluated leniently: a missing variable or
/// parenthesized expression is null.
pub open spec fn lenient_val(vars: Seq<(Seq<char>, Val)>, classic: bool, e: Expr) -> Result<Val, Fail>
    decreases e, 3nat,
{
    match eval_val(vars, classic, e) {
        Err(Fail::Missing(x)) => if catches_missing(e) {
            Ok(Val::Nothing)
        } else {
            Err(Fail::Missing(x))
        },
        r => r,
    }
}

/// The values of the first `n` expressions of a list, or the first error.
pub open spec fn eval_list(vars: Seq<(Seq<char>, Val)>, classic: bool, es: Seq<Expr>, n: nat) -> Result<Seq<Val>, Fail>
    decreases es, n,
{
    if n == 0 || n > es.len() {
        Ok(Seq::empty())
    } else {
        match eval_list(vars, classic, es, (n - 1) as nat) {
            Err(f) => Err(f),
            Ok(vs) => match eval_val(vars, classic, es[n - 1]) {
                Err(f) => Err(f),
                Ok(v) => Ok(vs.push(v)),
            },
        }
    }
}

/// An integer as a 64-bit integer.
pub open spec fn i64_of(i: int) -> i64 {
    i as i64
}

/// The number of arguments of a built-in call.
pub open spec fn nargs(args: Option<Vec<Expr>>) -> nat {
    match args {
        Some(a) => a@.len(),
        None => 0,
    }
}

/// An argument's value, a missing value counting as null.
pub open spec fn arg_lenient(vars: Seq<(Seq<char>, Val)>, classic: bool, a: Expr) -> Result<Val, Fail>
    decreases a, 3nat,
{
    match eval_val(vars, classic, a) {
        Err(Fail::Missing(_)) => Ok(Val::Nothing),
        r => r,
    }
}

/// The first argument from index `i` on whose value is not null (missing
/// values skipped), or null.
pub open spec fn first_non_null(vars: Seq<(Seq<char>, Val)>, classic: bool, es: Seq<Expr>, k: nat) -> Result<Val, Fail>
    decreases es, k,
{
    if k == 0 || k > es.len() {
        Ok(Val::Nothing)
    } else {
        let i = es.len() - k;
        match eval_val(vars, classic, es[i]) {
            Ok(v) => if !(v is Nothing) {
                Ok(v)
            } else {
                first_non_null(vars, classic, es, (k - 1) as nat)
            },
            Err(Fail::Missing(_)) => first_non_null(vars, classic, es, (k - 1) as nat),
            Err(f) => Err(f),
        }
    }
}

/// The key names read from the first `n` arguments of `?sort_by`, or the
/// first error.
pub open spec fn names_from_args(vars: Seq<(Seq<char>, Val)>, classic: bool, es: Seq<Expr>, n: nat) -> Result<Seq<Seq<char>>, Fail>
    decreases es, n,
{
    if n == 0 || n > es.len() {
        Ok(Seq::empty())
    } else {
        match names_from_args(vars, classic, es, (n - 1) as nat) {
            Err(f) => Err(f),
            Ok(ns) => match arg_lenient(vars, classic, es[n - 1]) {
                Err(f) => Err(f),
                Ok(v) => match crate::sort::arg_key_names(v) {
                    Err(m) => Err(Fail::Msg(m)),
                    Ok(more) => Ok(ns + more),
                },
            },
        }
    }
}

/// The type test of `?is_string`, `?is_number`, `?is_boolean`, `?is_date`
/// and `?is_hash`.
pub open spec fn type_test(name: Seq<char>, v: Val) -> bool {
    if name == "is_string"@ {
        scalar_text(v) is Some
    } else if name == "is_number"@ {
        v is Number
    } else if name == "is_boolean"@ {
        v is Boolean
    } else if name == "is_date"@ {
        v is Date
    } else {
        v is Hash
    }
}

/// Whether a built-in is a type test.
pub open spec fn is_type_test(name: Seq<char>) -> bool {
    name == "is_string"@ || name == "is_number"@ || name == "is_boolean"@ || name == "is_date"@ || name
        == "is_hash"@
}

/// Result of `?length`: the UTF-16 length of a string, or the number of
/// items of a sequence.
pub open spec fn length_result(t: Val) -> Result<Val, Seq<char>> {
    match scalar_text(t) {
        Some(s) => Ok(Val::Number(crate::number::TNumber::Long(utf16_len(s) as i64))),
        None => match crate::sequences::seq_items(t) {
            Some(items) => Ok(Val::Number(crate::number::TNumber::Long(items.len() as i64))),
            None => Err(crate::sequences::items_error("length"@, t)),
        },
    }
}

/// The number of UTF-16 code units of a text.
pub open spec fn utf16_len(s: Seq<char>) -> nat {
    crate::text::utf16_units(s).len()
}

/// The result of a built-in that takes only its target.
pub open spec fn target_only(name: Seq<char>, t: Val) -> Result<Val, Seq<char>> {
    if name == "size"@ {
        crate::seq_builtins::size_result(t)
    } else if name == "first"@ {
        crate::seq_builtins::first_result(t)
    } else if name == "last"@ {
        crate::seq_builtins::last_result(t)
    } else if name == "reverse"@ {
        crate::seq_builtins::reverse_result(t)
    } else if name == "length"@ {
        length_result(t)
    } else if name == "sequence"@ {
        crate::seq_builtins::sequence_result(t)
    } else if name == "sort"@ {
        crate::sort::sort_result(t)
    } else if name == "min"@ {
        crate::compare::min_max_result(t, false)
    } else {
        crate::compare::min_max_result(t, true)
    }
}

/// Whether a built-in takes only its target.
pub open spec fn is_target_only(name: Seq<char>) -> bool {
    name == "size"@ || name == "first"@ || name == "last"@ || name == "reverse"@ || name == "length"@
        || name == "sequence"@ || name == "sort"@ || name == "min"@ || name == "max"@
}

/// Whether a built-in that takes only its target refuses arguments.
pub open spec fn checks_no_args(name: Seq<char>) -> bool {
    name == "sequence"@ || name == "sort"@ || name == "min"@ || name == "max"@
}

/// The value of a built-in call.
pub open spec fn builtin_val(vars: Seq<(Seq<char>, Val)>, classic: bool, e: Expr) -> Result<Val, Fail>
    decreases e, 1nat,
{
    match e.kind {
        ExprKind::BuiltIn { target, name, args } => {
            let n = nargs(args);
            let bi = name@;
            if bi == "exists"@ {
                match lenient_val(vars, classic, *target) {
                    Err(f) => Err(f),
                    Ok(v) => Ok(Val::Boolean(!(v is Nothing))),
                }
            } else if bi == "default"@ {
                match lenient_val(vars, classic, *target) {
                    Err(f) => Err(f),
                    Ok(v) => if !(v is Nothing) {
                        Ok(v)
                    } else {
                        match args {
                            Some(a) => first_non_null(vars, classic, a@, a@.len()),
                            None => Ok(Val::Nothing),
                        }
                    },
                }
            } else if is_type_test(bi) {
                match eval_val(vars, classic, *target) {
                    Ok(v) => Ok(Val::Boolean(type_test(bi, v))),
                    Err(Fail::Missing(_)) => Ok(Val::Boolean(false)),
                    Err(f) => Err(f),
                }
            } else if is_target_only(bi) {
                if checks_no_args(bi) && n != 0 {
                    Err(Fail::Msg(crate::eval_util::arg_count_msg(bi, n, 0, 0)))
                } else {
                    match eval_val(vars, classic, *target) {
                        Err(f) => Err(f),
                        Ok(t) => msg_result(target_only(bi, t)),
                    }
                }
            } else if bi == "seq_contains"@ {
                contains_val(vars, classic, e)
            } else if bi == "seq_index_of"@ || bi == "seq_last_index_of"@ {
                index_of_val(vars, classic, e)
            } else if bi == "chunk"@ {
                chunk_val(vars, classic, e)
            } else if is_lambda_builtin(bi) {
                lambda_val(vars, classic, e)
            } else if is_if_unknown(bi) {
                match eval_val(vars, classic, *target) {
                    Err(f) => Err(f),
                    Ok(t) => if_unknown_val(t, if_unknown_kind(bi)),
                }
            } else if bi == "markup_string"@ {
                match eval_val(vars, classic, *target) {
                    Err(f) => Err(f),
                    Ok(t) => markup_string_val(t),
                }
            } else {
                sort_by_val(vars, classic, e)
            }
        },
        _ => Err(Fail::Msg(Seq::empty())),
    }
}

/// The value of `?seq_contains`.
pub open spec fn contains_val(vars: Seq<(Seq<char>, Val)>, classic: bool, e: Expr) -> Result<Val, Fail>
    decreases e, 0nat,
{
    match e.kind {
        ExprKind::BuiltIn { target, name, args } => {
            let n = nargs(args);
            let bi = name@;
            if n != 1 {
                Err(Fail::Msg(crate::eval_util::arg_count_msg(bi, n, 1, 1)))
            } else {
                match eval_val(vars, classic, *target) {
                    Err(f) => Err(f),
                    Ok(t) => match arg_lenient(vars, classic, args->Some_0@[0]) {
                        Err(f) => Err(f),
                        Ok(x) => match crate::seq_builtins::seq_contains_result(t, x) {
                            Ok(b) => Ok(Val::Boolean(b)),
                            Err(m) => Err(Fail::Msg(m)),
                        },
                    },
                }
            }
        },
        _ => Err(Fail::Msg(Seq::empty())),
    }
}

/// The index `?seq_index_of` (or, for another name, `?seq_last_index_of`)
/// gives on the listed items, with an optional start argument that must be
/// a number.
pub open spec fn index_found(bi: Seq<char>, items: Seq<Val>, x: Val, from: Option<Val>) -> Result<Val, Fail> {
    if crate::sequences::non_number_arg(from) {
        Err(Fail::Msg(crate::sequences::number_arg_msg(bi, 1, from->Some_0)))
    } else {
        match crate::sequences::index_of_result(items, x, crate::sequences::from_index(from), bi == "seq_index_of"@) {
            Ok(i) => Ok(Val::Number(crate::number::TNumber::Long(i64_of(i)))),
            Err(m) => Err(Fail::Msg(m)),
        }
    }
}

/// The value of `?seq_index_of` or `?seq_last_index_of`.
pub open spec fn index_of_val(vars: Seq<(Seq<char>, Val)>, classic: bool, e: Expr) -> Result<Val, Fail>
    decreases e, 0nat,
{
    match e.kind {
        ExprKind::BuiltIn { target, name, args } => {
            let n = nargs(args);
            let bi = name@;
            if n < 1 || n > 2 {
                Err(Fail::Msg(crate::eval_util::arg_count_msg(bi, n, 1, 2)))
            } else {
                match eval_val(vars, classic, *target) {
                    Err(f) => Err(f),
                    Ok(t) => match crate::sequences::listable_items(t) {
                        None => Err(Fail::Msg(crate::sequences::items_error(bi, t))),
                        Some(items) => match arg_lenient(vars, classic, args->Some_0@[0]) {
                            Err(f) => Err(f),
                            Ok(x) => if n > 1 {
                                match arg_lenient(vars, classic, args->Some_0@[1]) {
                                    Err(f) => Err(f),
                                    Ok(fv) => index_found(bi, items, x, Some(fv)),
                                }
                            } else {
                                index_found(bi, items, x, None)
                            },
                        },
                    },
                }
            }
        },
        _ => Err(Fail::Msg(Seq::empty())),
    }
}

/// The value of `?chunk`.
pub open spec fn chunk_val(vars: Seq<(Seq<char>, Val)>, classic: bool, e: Expr) -> Result<Val, Fail>
    decreases e, 0nat,
{
    match e.kind {
        ExprKind::BuiltIn { target, name, args } => {
            let n = nargs(args);
            let bi = name@;
            if n < 1 || n > 2 {
                Err(Fail::Msg(crate::eval_util::arg_count_msg(bi, n, 1, 2)))
            } else {
                match arg_lenient(vars, classic, args->Some_0@[0]) {
                    Err(f) => Err(f),
                    Ok(sv) => if !(sv is Number) {
                        Err(Fail::Msg(crate::sequences::number_arg_msg(bi, 0, sv)))
                    } else if sv->Number_0.truncated() < 1 {
                        Err(Fail::Msg(crate::seq_builtins::chunk_size_msg()))
                    } else {
                        let filler: Result<Option<Val>, Fail> = if n > 1 {
                            match arg_lenient(vars, classic, args->Some_0@[1]) {
                                Err(f) => Err(f),
                                Ok(fv) => Ok(Some(fv)),
                            }
                        } else {
                            Ok(None)
                        };
                        match filler {
                            Err(f) => Err(f),
                            Ok(fo) => match eval_val(vars, classic, *target) {
                                Err(f) => Err(f),
                                Ok(t) => msg_result(crate::seq_builtins::chunk_result(t, sv, fo)),
                            },
                        }
                    },
                }
            }
        },
        _ => Err(Fail::Msg(Seq::empty())),
    }
}

/// The variables in scope inside a lambda's body: its first parameter bound
/// to the item, before the others.
pub open spec fn bind_param(vars: Seq<(Seq<char>, Val)>, param: Option<Seq<char>>, item: Val) -> Seq<(Seq<char>, Val)> {
    match param {
        Some(p) => seq![(p, item)] + vars,
        None => vars,
    }
}

/// Message of a lambda whose result should have been a boolean.
pub open spec fn lambda_bool_msg() -> Seq<char> {
    "The filter expression had to return a boolean value"@
}

/// Message of `?map` whose lambda gave null.
pub open spec fn map_null_msg() -> Seq<char> {
    "The element mapper function has returned no return value (has returned null)."@
}

/// The items kept so far by a built-in that takes a lambda, and whether
/// `?take_while` stopped or `?drop_while` stopped dropping.
pub struct LambdaRun {
    pub out: Seq<Val>,
    pub done: bool,
}

/// One item through the lambda of `?filter`, `?map`, `?take_while` or
/// `?drop_while`.
pub open spec fn lambda_step(
    vars: Seq<(Seq<char>, Val)>,
    classic: bool,
    bi: Seq<char>,
    param: Option<Seq<char>>,
    body: Expr,
    item: Val,
    st: LambdaRun,
) -> Result<LambdaRun, Fail>
    decreases body, 3nat,
{
    if st.done && bi == "take_while"@ {
        Ok(st)
    } else if st.done && bi == "drop_while"@ {
        Ok(LambdaRun { out: st.out.push(item), ..st })
    } else {
        match eval_val(bind_param(vars, param, item), classic, body) {
            Err(f) => Err(f),
            Ok(v) => if bi == "map"@ {
                if v is Nothing {
                    Err(Fail::Msg(map_null_msg()))
                } else {
                    Ok(LambdaRun { out: st.out.push(v), ..st })
                }
            } else {
                match v {
                    Val::Boolean(b) => if bi == "filter"@ {
                        Ok(if b { LambdaRun { out: st.out.push(item), ..st } } else { st })
                    } else if bi == "take_while"@ {
                        Ok(if b { LambdaRun { out: st.out.push(item), ..st } } else { LambdaRun { done: true, ..st } })
                    } else {
                        Ok(if b { st } else { LambdaRun { out: st.out.push(item), done: true } })
                    },
                    _ => Err(Fail::Msg(lambda_bool_msg())),
                }
            },
        }
    }
}

/// The first `n` items through the lambda.
pub open spec fn lambda_fold(
    vars: Seq<(Seq<char>, Val)>,
    classic: bool,
    bi: Seq<char>,
    param: Option<Seq<char>>,
    body: Expr,
    items: Seq<Val>,
    n: nat,
) -> Result<LambdaRun, Fail>
    decreases body, n + 4,
{
    if n == 0 || n > items.len() {
        Ok(LambdaRun { out: Seq::empty(), done: false })
    } else {
        match lambda_fold(vars, classic, bi, param, body, items, (n - 1) as nat) {
            Err(f) => Err(f),
            Ok(st) => lambda_step(vars, classic, bi, param, body, items[n - 1], st),
        }
    }
}

/// Message of an argument that should have been a lambda.
pub open spec fn not_lambda_msg(bi: Seq<char>) -> Seq<char> {
    "The argument to ?"@ + bi + " must be a lambda expression"@
}

/// The value of `?filter`, `?map`, `?take_while` or `?drop_while`: one
/// argument, which must be a lambda; the target's items through it.
pub open spec fn lambda_val(vars: Seq<(Seq<char>, Val)>, classic: bool, e: Expr) -> Result<Val, Fail>
    decreases e, 0nat,
{
    match e.kind {
        ExprKind::BuiltIn { target, name, args } => {
            let n = nargs(args);
            let bi = name@;
            if n != 1 {
                Err(Fail::Msg(crate::eval_util::arg_count_msg(bi, n, 1, 1)))
            } else {
                let a = args->Some_0@[0];
                match a.kind {
                    ExprKind::Lambda { params, body } => match eval_val(vars, classic, *target) {
                        Err(f) => Err(f),
                        Ok(t) => match crate::sequences::seq_items(t) {
                            None => Err(Fail::Msg(crate::sequences::items_error(bi, t))),
                            Some(items) => match lambda_fold(
                                vars,
                                classic,
                                bi,
                                if params@.len() > 0 { Some(params@[0]@) } else { None },
                                *body,
                                items,
                                items.len(),
                            ) {
                                Err(f) => Err(f),
                                Ok(st) => Ok(Val::Sequence(st.out)),
                            },
                        },
                    },
                    _ => match eval_val(vars, classic, a) {
                        Err(f) => Err(f),
                        Ok(_) => Err(Fail::Msg(not_lambda_msg(bi))),
                    },
                }
            }
        },
        _ => Err(Fail::Msg(Seq::empty())),
    }
}

/// The value of `?sort_by`.
pub open spec fn sort_by_val(vars: Seq<(Seq<char>, Val)>, classic: bool, e: Expr) -> Result<Val, Fail>
    decreases e, 0nat,
{
    match e.kind {
        ExprKind::BuiltIn { target, name, args } => {
            let n = nargs(args);
            if n < 1 {
                Err(Fail::Msg(crate::sort::sort_by_no_args_msg()))
            } else {
                match names_from_args(vars, classic, args->Some_0@, n) {
                    Err(f) => Err(f),
                    Ok(names) => match eval_val(vars, classic, *target) {
                        Err(f) => Err(f),
                        Ok(t) => msg_result(crate::sort::sort_by_result(t, names)),
                    },
                }
            }
        },
        _ => Err(Fail::Msg(Seq::empty())),
    }
}

/// The value of a variable.
fn lookup_var(env: &Env, name: &String) -> (r: Result<TModel, TemplateError>)
    requires
        env.wf(),
    ensures
        match lookup(env.vars_view(), env.classic_compatible, name@) {
            Ok(v) => r matches Ok(m) && m@ == v && val_ok(v),
            Err(f) => r matches Err(x) && fail_of(x) == f,
        },
{
    proof {
        crate::sort::lemma_hash_get_ok(env.vars_view(), name@);
    }
    match crate::sort::hash_lookup(&env.vars, name.as_str()) {
        Some(m) => Ok(m),
        None => if env.classic_compatible {
            Ok(TModel::Nothing)
        } else {
            Err(TemplateError::invalid_reference(name.clone()))
        },
    }
}

/// A value as a condition.
fn to_bool_of(m: &TModel, classic: bool) -> (r: Result<bool, TemplateError>)
    ensures
        match to_bool(m@, classic) {
            Ok(b) => r == Ok::<bool, TemplateError>(b),
            Err(f) => r matches Err(x) && fail_of(x) == f,
        },
{
    match m {
        TModel::Boolean(b) => return Ok(*b),
        _ => {},
    }
    if !classic {
        return Err(TemplateError::type_mismatch("boolean", m.kind_name()));
    }
    match m {
        TModel::Nothing => Ok(false),
        TModel::Sequence(v) => {
            proof {
                crate::value::lemma_vals_len(v@);
            }
            Ok(v.len() > 0)
        },
        TModel::Collection(v) => {
            proof {
                crate::value::lemma_vals_len(v@);
            }
            Ok(v.len() > 0)
        },
        TModel::Hash(es) => {
            proof {
                crate::value::lemma_entry_vals_len(es@);
            }
            Ok(es.len() > 0)
        },
        TModel::Range(r) => Ok(r.unbounded || r.count > 0),
        _ => match scalar_text_of(m) {
            Some(s) => {
                let e = crate::text::str_eq(s.as_str(), "");
                proof {
                    reveal_strlit("");
                    assert(""@ =~= Seq::<char>::empty());
                    if s@.len() == 0 {
                        assert(s@ =~= ""@);
                    }
                }
                Ok(!e)
            },
            None => Ok(true),
        },
    }
}

/// `t.name` on the value of the target.
fn dot_of(t: TModel, name: &String, target: &Expr, classic: bool) -> (r: Result<TModel, TemplateError>)
    requires
        val_ok(t@),
    ensures
        match dot_val(t@, name@, desc(*target), classic) {
            Ok(v) => r matches Ok(m) && m@ == v && val_ok(v),
            Err(f) => r matches Err(x) && fail_of(x) == f,
        },
{
    match &t {
        TModel::Nothing => {
            if classic {
                Ok(TModel::Nothing)
            } else {
                Err(TemplateError::invalid_reference(crate::describe::expr_desc(target)))
            }
        },
        TModel::Hash(es) => {
            proof {
                crate::sort::lemma_hash_get_ok(entry_vals(es@), name@);
            }
            match crate::sort::hash_lookup(es, name.as_str()) {
                Some(m) => Ok(m),
                None => Ok(TModel::Nothing),
            }
        },
        _ => Err(TemplateError::type_mismatch("hash", t.kind_name())),
    }
}

fn range_index_error(idx: i64) -> (e: TemplateError)
    ensures
        fail_of(e) == Fail::Msg(range_index_msg(idx as int)),
{
    let mut m = String::from_str("Range item index ");
    let t = crate::text::i64_text(idx);
    crate::text::push_str(&mut m, t.as_str());
    crate::text::push_str(&mut m, " is out of bounds.");
    TemplateError::misc(m)
}

/// `t[n]` for a number key truncated to `idx`.
fn index_of_value(t: &TModel, idx: i64, key: &Expr, target: &Expr) -> (r: Result<TModel, TemplateError>)
    requires
        val_ok(t@),
    ensures
        match index_val(t@, idx as int, desc(*key), desc(*target)) {
            Ok(v) => r matches Ok(m) && m@ == v && val_ok(v),
            Err(f) => r matches Err(x) && fail_of(x) == f,
        },
{
    if idx < 0 {
        return match t {
            TModel::Range(_) => Err(range_index_error(idx)),
            TModel::Sequence(_) => {
                let mut d = crate::describe::expr_desc(target);
                crate::text::push_str(&mut d, "[");
                let k = crate::describe::expr_desc(key);
                crate::text::push_str(&mut d, k.as_str());
                crate::text::push_str(&mut d, "]");
                Err(TemplateError::invalid_reference(d))
            },
            _ => {
                let mut m = String::from_str("Negative index not allowed: ");
                let n = crate::text::i64_text(idx);
                crate::text::push_str(&mut m, n.as_str());
                Err(TemplateError::misc(m))
            },
        };
    }
    match t {
        TModel::Range(r) => {
            if r.unbounded {
                if idx < 2147483647 {
                    return Ok(TModel::Number(crate::number::TNumber::Long(r.start + idx)));
                }
                return Err(range_index_error(idx));
            }
            if (idx as u64) < (r.count as u64) {
                let v: i64 = if r.ascending {
                    (r.start as i128 + idx as i128) as i64
                } else {
                    (r.start as i128 - idx as i128) as i64
                };
                proof {
                    assert(crate::sequences::range_wf(*r));
                    assert(v as int == crate::sequences::range_item(*r, idx as int));
                }
                return Ok(TModel::Number(crate::number::TNumber::Long(v)));
            }
            Ok(TModel::Nothing)
        },
        TModel::Sequence(items) => {
            proof {
                crate::value::lemma_vals_len(items@);
            }
            if (idx as u64) < (items.len() as u64) {
                proof {
                    crate::value::lemma_vals_index(items@, idx as int);
                }
                return Ok(items[idx as usize].copy_model());
            }
            Ok(TModel::Nothing)
        },
        _ => match scalar_text_of(t) {
            Some(s) => {
                let cs = crate::text::chars_of(s.as_str());
                if (idx as u64) < (cs.len() as u64) {
                    let mut c = String::new();
                    crate::text::push_char(&mut c, cs[idx as usize]);
                    proof {
                        assert(c@ =~= seq![s@[idx as int]]);
                    }
                    return Ok(TModel::Scalar(c));
                }
                let mut m = String::from_str("String index out of range: The index was ");
                let n = crate::text::i64_text(idx);
                crate::text::push_str(&mut m, n.as_str());
                crate::text::push_str(&mut m, " (0-based), but the length of the string is only ");
                let l = crate::text::usize_text(cs.len());
                crate::text::push_str(&mut m, l.as_str());
                crate::text::push_str(&mut m, ".");
                Err(TemplateError::misc(m))
            },
            None => Err(TemplateError::type_mismatch("sequence-or-string", t.kind_name())),
        },
    }
}

/// `t[k]` on the values of target and key.
fn dyn_key_of(t: &TModel, k: &TModel, key: &Expr, target: &Expr) -> (r: Result<TModel, TemplateError>)
    requires
        val_ok(t@),
        val_ok(k@),
    ensures
        match dyn_key_val(t@, k@, desc(*key), desc(*target)) {
            Ok(v) => r matches Ok(m) && m@ == v && val_ok(v),
            Err(f) => r matches Err(x) && fail_of(x) == f,
        },
{
    match k {
        TModel::Number(n) => {
            let idx = match crate::number::trunc_i64(n) {
                Some(i) => i,
                None => 0,
            };
            return index_of_value(t, idx, key, target);
        },
        TModel::Range(r) => {
            let res = crate::slicing::slice_with_range(t, r);
            return res;
        },
        _ => {},
    }
    match scalar_text_of(k) {
        Some(name) => match t {
            TModel::Hash(es) => {
                proof {
                    crate::sort::lemma_hash_get_ok(entry_vals(es@), name@);
                }
                match crate::sort::hash_lookup(es, name.as_str()) {
                    Some(m) => Ok(m),
                    None => Ok(TModel::Nothing),
                }
            },
            _ => Err(TemplateError::type_mismatch("hash", t.kind_name())),
        },
        None => Err(TemplateError::type_mismatch("number, range, or string", k.kind_name())),
    }
}

/// All values of a list are well formed.
pub open spec fn all_ok(s: Seq<Val>) -> bool {
    forall|i: int| 0 <= i < s.len() ==> val_ok(#[trigger] s[i])
}

/// Sorted indices lie below the number of items.
pub proof fn lemma_sorted_indices_below(ks: Seq<crate::sort::KeyVal>, n: nat)
    ensures
        crate::laws::indices_below(crate::sort::sorted_indices(ks, n), n as int),
        crate::sort::sorted_indices(ks, n).len() == n,
    decreases n,
{
    if n > 0 {
        let s = crate::sort::sorted_indices(ks, (n - 1) as nat);
        lemma_sorted_indices_below(ks, (n - 1) as nat);
        let p = crate::laws::lemma_insert_shape(s, n - 1, ks);
        let r = crate::sort::insert_stable(s, n - 1, ks);
        assert forall|q: int| 0 <= q < r.len() implies 0 <= #[trigger] r[q] < n by {
            if q < p {
                assert(r[q] == s[q]);
            } else if q > p {
                assert(r[q] == s[q - 1]);
            }
        }
    }
}

/// Items sorted by keys are well formed when the items are.
pub proof fn lemma_sort_keys_ok(items: Seq<Val>, by: bool, keys: Seq<Val>)
    requires
        all_ok(items),
        keys.len() == items.len(),
    ensures
        crate::sort::sort_keys_result(items, by, keys) matches Ok(s) ==> all_ok(s),
{
    if keys.len() > 0 {
        match crate::sort::key_type_of(keys[0]) {
            Some(t) => match crate::sort::cast_all(keys, t) {
                Ok(ks) => {
                    crate::sort::lemma_cast_all(keys, t);
                    lemma_sorted_indices_below(ks, items.len());
                    let idx = crate::sort::sorted_indices(ks, items.len());
                    let s = crate::sort::sorted_items(items, ks);
                    assert forall|p: int| 0 <= p < s.len() implies val_ok(#[trigger] s[p]) by {
                        assert(0 <= idx[p] < items.len());
                    }
                },
                Err(_) => {},
            },
            None => {},
        }
    }
}

/// The result of `?min` / `?max` is one of the items.
pub proof fn lemma_min_max_member(items: Seq<Val>, want_max: bool)
    ensures
        crate::compare::min_max_acc(items, want_max) matches Ok(Some(b)) ==> exists|i: int|
            0 <= i < items.len() && items[i] == b,
    decreases items.len(),
{
    if items.len() > 0 {
        lemma_min_max_member(items.drop_last(), want_max);
        match crate::compare::min_max_acc(items.drop_last(), want_max) {
            Ok(Some(b)) => {
                let w = choose|i: int| 0 <= i < items.drop_last().len() && items.drop_last()[i] == b;
                assert(items[w] == b);
            },
            _ => {},
        }
        assert(items[items.len() - 1] == items.last());
    }
}

/// Chunks of well-formed items with a well-formed filler are well formed.
pub proof fn lemma_chunks_ok(items: Seq<Val>, size: nat, filler: Option<Val>)
    requires
        all_ok(items),
        filler matches Some(f) ==> val_ok(f),
    ensures
        all_ok(crate::seq_builtins::chunks(items, size, filler)),
    decreases items.len(),
{
    let cs = crate::seq_builtins::chunks(items, size, filler);
    if size == 0 || items.len() == 0 {
    } else if items.len() <= size {
        let pd = crate::seq_builtins::padded(items, size, filler);
        assert forall|i: int| 0 <= i < pd.len() implies val_ok(#[trigger] pd[i]) by {
            if i >= items.len() {
            }
        }
        assert(val_ok(cs[0]));
    } else {
        let rest = items.skip(size as int);
        assert(all_ok(rest)) by {
            assert forall|i: int| 0 <= i < rest.len() implies val_ok(#[trigger] rest[i]) by {
                assert(rest[i] == items[i + size]);
            }
        }
        lemma_chunks_ok(rest, size, filler);
        let head = items.take(size as int);
        assert forall|i: int| 0 <= i < head.len() implies val_ok(#[trigger] head[i]) by {
            assert(head[i] == items[i]);
        }
        assert forall|k: int| 0 <= k < cs.len() implies val_ok(#[trigger] cs[k]) by {
            if k > 0 {
                assert(cs[k] == crate::seq_builtins::chunks(rest, size, filler)[k - 1]);
            } else {
                assert(cs[0] == Val::Sequence(head));
            }
        }
    }
}

/// The results of the built-ins that take only their target are well
/// formed when the target is.
pub proof fn lemma_target_only_ok(name: Seq<char>, t: Val)
    requires
        val_ok(t),
    ensures
        target_only(name, t) matches Ok(x) ==> val_ok(x),
{
    crate::sequences::lemma_val_ok_items(t);
    match crate::sequences::seq_items(t) {
        Some(items) => {
            let r = items.reverse();
            assert forall|i: int| 0 <= i < r.len() implies val_ok(#[trigger] r[i]) by {
                assert(r[i] == items[items.len() - 1 - i]);
            }
            if items.len() > 0 {
                lemma_sort_keys_ok(items, false, items);
            }
        },
        None => {},
    }
    match scalar_text(t) {
        Some(s) => {
            let cs = crate::seq_builtins::char_strings(s);
            assert forall|i: int| 0 <= i < cs.len() implies val_ok(#[trigger] cs[i]) by {}
        },
        None => {},
    }
    match listable_of(t) {
        Some(items) => {
            lemma_min_max_member(items, false);
            lemma_min_max_member(items, true);
        },
        None => {},
    }
}

/// The items of a listable value.
pub open spec fn listable_of(t: Val) -> Option<Seq<Val>> {
    crate::sequences::listable_items(t)
}

/// Whether a result of the evaluator is the value (well formed) or the
/// error that the model gives.
pub open spec fn answers(r: Result<TModel, TemplateError>, s: Result<Val, Fail>) -> bool {
    match s {
        Ok(v) => r matches Ok(m) && m@ == v && val_ok(v),
        Err(f) => r matches Err(x) && fail_of(x) == f,
    }
}

/// Every expression of a list the evaluator handles is one it handles.
pub proof fn lemma_all_evaluable(es: Seq<Expr>, i: int)
    requires
        all_evaluable(es),
        0 <= i < es.len(),
    ensures
        evaluable(es[i]),
    decreases es.len(),
{
    if i < es.len() - 1 {
        lemma_all_evaluable(es.drop_last(), i);
        assert(es.drop_last()[i] == es[i]);
    }
}

/// The value of an expression against the variables in scope.
pub fn eval(env: &Env, e: &Expr) -> (r: Result<TModel, TemplateError>)
    requires
        env.wf(),
        evaluable(*e),
    ensures
        answers(r, eval_val(env.vars_view(), env.classic_compatible, *e)),
    decreases *e, 2nat,
{
    let classic = env.classic_compatible;
    match &e.kind {
        ExprKind::Str(s) => Ok(TModel::Scalar(s.clone())),
        ExprKind::Num(n) => Ok(TModel::Number(*n)),
        ExprKind::Bool(b) => Ok(TModel::Boolean(*b)),
        ExprKind::Ident(n) => lookup_var(env, n),
        ExprKind::Paren(x) => eval(env, x),
        ExprKind::Not(x) => {
            let v = eval(env, x)?;
            let b = to_bool_of(&v, classic)?;
            Ok(TModel::Boolean(!b))
        },
        ExprKind::And(a, b) => {
            let va = eval(env, a)?;
            let ba = to_bool_of(&va, classic)?;
            if !ba {
                return Ok(TModel::Boolean(false));
            }
            let vb = eval(env, b)?;
            let bb = to_bool_of(&vb, classic)?;
            Ok(TModel::Boolean(bb))
        },
        ExprKind::Or(a, b) => {
            let va = eval(env, a)?;
            let ba = to_bool_of(&va, classic)?;
            if ba {
                return Ok(TModel::Boolean(true));
            }
            let vb = eval(env, b)?;
            let bb = to_bool_of(&vb, classic)?;
            Ok(TModel::Boolean(bb))
        },
        ExprKind::Eq(_, _) | ExprKind::NotEq(_, _) | ExprKind::Gt(_, _) | ExprKind::Gte(_, _)
        | ExprKind::Lt(_, _) | ExprKind::Lte(_, _) => eval_comparison(env, e),
        ExprKind::Dot { target, name } => {
            let t = eval(env, target)?;
            dot_of(t, name, target, classic)
        },
        ExprKind::DynKey { target, key } => {
            let t = eval(env, target)?;
            if t.is_nothing() {
                if classic {
                    return Ok(TModel::Nothing);
                }
                return Err(TemplateError::invalid_reference(crate::describe::expr_desc(target)));
            }
            let k = eval(env, key)?;
            dyn_key_of(&t, &k, key, target)
        },
        ExprKind::Default { target, default } => {
            let v = eval_lenient(env, target)?;
            if !v.is_nothing() {
                return Ok(v);
            }
            match default {
                Some(d) => eval(env, d),
                None => Ok(TModel::Scalar(String::new())),
            }
        },
        ExprKind::Exists(t) => {
            let v = eval_lenient(env, t)?;
            Ok(TModel::Boolean(!v.is_nothing()))
        },
        ExprKind::ListLit(items) => {
            let vs = eval_items(env, items)?;
            Ok(TModel::Sequence(vs))
        },
        ExprKind::BuiltIn { .. } => eval_builtin(env, e),
        _ => Err(TemplateError::misc(String::from_str("..."))),
    }
}

/// A comparison: both operands evaluated, then compared.
fn eval_comparison(env: &Env, e: &Expr) -> (r: Result<TModel, TemplateError>)
    requires
        env.wf(),
        evaluable(*e),
    ensures
        answers(r, compare_val(env.vars_view(), env.classic_compatible, *e)),
    decreases *e, 1nat,
{
    let (a, b, op) = match &e.kind {
        ExprKind::Eq(a, b) => (a, b, CmpOp::Eq),
        ExprKind::NotEq(a, b) => (a, b, CmpOp::NotEq),
        ExprKind::Gt(a, b) => (a, b, CmpOp::Gt),
        ExprKind::Gte(a, b) => (a, b, CmpOp::Gte),
        ExprKind::Lt(a, b) => (a, b, CmpOp::Lt),
        ExprKind::Lte(a, b) => (a, b, CmpOp::Lte),
        _ => return Err(TemplateError::misc(String::new())),
    };
    let l = eval(env, a)?;
    let r = eval(env, b)?;
    let x = crate::compare::compare_models(&l, &r, op)?;
    Ok(TModel::Boolean(x))
}

/// Whether an error is of a missing value.
fn is_missing_error(x: &TemplateError) -> (b: bool)
    ensures
        b == (fail_of(*x) is Missing),
{
    match x {
        TemplateError::InvalidReference { .. } => true,
        _ => false,
    }
}

/// The value of a target evaluated leniently.
fn eval_lenient(env: &Env, e: &Expr) -> (r: Result<TModel, TemplateError>)
    requires
        env.wf(),
        evaluable(*e),
    ensures
        answers(r, lenient_val(env.vars_view(), env.classic_compatible, *e)),
    decreases *e, 3nat,
{
    let catches = match &e.kind {
        ExprKind::Paren(_) | ExprKind::Ident(_) => true,
        _ => false,
    };
    match eval(env, e) {
        Ok(v) => Ok(v),
        Err(x) => if catches && is_missing_error(&x) {
            Ok(TModel::Nothing)
        } else {
            Err(x)
        },
    }
}

/// An argument's value, a missing value counting as null.
pub(crate) fn eval_arg(env: &Env, a: &Expr) -> (r: Result<TModel, TemplateError>)
    requires
        env.wf(),
        evaluable(*a),
    ensures
        answers(r, arg_lenient(env.vars_view(), env.classic_compatible, *a)),
    decreases *a, 3nat,
{
    match eval(env, a) {
        Ok(v) => Ok(v),
        Err(x) => if is_missing_error(&x) {
            Ok(TModel::Nothing)
        } else {
            Err(x)
        },
    }
}

/// Once evaluating a prefix of a list failed, the whole list fails with
/// that error.
pub proof fn lemma_eval_list_err(vars: Seq<(Seq<char>, Val)>, classic: bool, es: Seq<Expr>, k: nat, n: nat)
    requires
        k <= n <= es.len(),
        eval_list(vars, classic, es, k) is Err,
    ensures
        eval_list(vars, classic, es, n) == eval_list(vars, classic, es, k),
    decreases n,
{
    if n > k {
        lemma_eval_list_err(vars, classic, es, k, (n - 1) as nat);
    }
}

/// Once reading key names from a prefix of the arguments failed, reading
/// them from all fails with that error.
pub proof fn lemma_names_err(vars: Seq<(Seq<char>, Val)>, classic: bool, es: Seq<Expr>, k: nat, n: nat)
    requires
        k <= n <= es.len(),
        names_from_args(vars, classic, es, k) is Err,
    ensures
        names_from_args(vars, classic, es, n) == names_from_args(vars, classic, es, k),
    decreases n,
{
    if n > k {
        lemma_names_err(vars, classic, es, k, (n - 1) as nat);
    }
}

/// The values of a list of expressions, or the first error.
fn eval_items(env: &Env, es: &Vec<Expr>) -> (r: Result<Vec<TModel>, TemplateError>)
    requires
        env.wf(),
        all_evaluable(es@),
    ensures
        match eval_list(env.vars_view(), env.classic_compatible, es@, es@.len()) {
            Ok(vs) => r matches Ok(v) && vals(v@) == vs && all_ok(vs),
            Err(f) => r matches Err(x) && fail_of(x) == f,
        },
    decreases es@, 0nat,
{
    let ghost vars = env.vars_view();
    let ghost classic = env.classic_compatible;
    let mut out: Vec<TModel> = Vec::new();
    let mut i: usize = 0;
    while i < es.len()
        invariant
            env.wf(),
            vars == env.vars_view(),
            classic == env.classic_compatible,
            all_evaluable(es@),
            i <= es.len(),
            eval_list(vars, classic, es@, i as nat) == Ok::<Seq<Val>, Fail>(vals(out@)),
            all_ok(vals(out@)),
        decreases es.len() - i,
    {
        proof {
            lemma_all_evaluable(es@, i as int);
        }
        let v = match eval(env, &es[i]) {
            Ok(v) => v,
            Err(x) => {
                proof {
                    lemma_eval_list_err(vars, classic, es@, (i + 1) as nat, es@.len());
                }
                return Err(x);
            },
        };
        proof {
            crate::value::lemma_vals_push(out@, v);
        }
        out.push(v);
        i += 1;
    }
    Ok(out)
}

/// The first argument whose value is not null (missing values skipped), or
/// null.
fn first_present(env: &Env, es: &Vec<Expr>) -> (r: Result<TModel, TemplateError>)
    requires
        env.wf(),
        all_evaluable(es@),
    ensures
        answers(r, first_non_null(env.vars_view(), env.classic_compatible, es@, es@.len())),
    decreases es@, 0nat,
{
    let ghost vars = env.vars_view();
    let ghost classic = env.classic_compatible;
    let mut i: usize = 0;
    while i < es.len()
        invariant
            env.wf(),
            vars == env.vars_view(),
            classic == env.classic_compatible,
            all_evaluable(es@),
            i <= es.len(),
            first_non_null(vars, classic, es@, es@.len()) == first_non_null(
                vars,
                classic,
                es@,
                (es@.len() - i) as nat,
            ),
        decreases es.len() - i,
    {
        proof {
            lemma_all_evaluable(es@, i as int);
        }
        match eval(env, &es[i]) {
            Ok(v) => {
                if !v.is_nothing() {
                    return Ok(v);
                }
            },
            Err(x) => {
                if !is_missing_error(&x) {
                    return Err(x);
                }
            },
        }
        i += 1;
    }
    Ok(TModel::Nothing)
}

/// Whether a built-in is a type test.
fn is_type_test_name(bi: &str) -> (b: bool)
    ensures
        b == is_type_test(bi@),
{
    str_eq(bi, "is_string") || str_eq(bi, "is_number") || str_eq(bi, "is_boolean") || str_eq(
        bi,
        "is_date",
    ) || str_eq(bi, "is_hash")
}

/// The type test of `?is_string` and the like on a value.
fn type_test_of(bi: &str, v: &TModel) -> (b: bool)
    ensures
        b == type_test(bi@, v@),
{
    if str_eq(bi, "is_string") {
        scalar_text_of(v).is_some()
    } else if str_eq(bi, "is_number") {
        matches!(v, TModel::Number(_))
    } else if str_eq(bi, "is_boolean") {
        matches!(v, TModel::Boolean(_))
    } else if str_eq(bi, "is_date") {
        matches!(v, TModel::Date(_))
    } else {
        matches!(v, TModel::Hash(_))
    }
}

/// Whether a built-in takes only its target.
fn is_target_only_name(bi: &str) -> (b: bool)
    ensures
        b == is_target_only(bi@),
{
    str_eq(bi, "size") || str_eq(bi, "first") || str_eq(bi, "last") || str_eq(bi, "reverse")
        || str_eq(bi, "length") || str_eq(bi, "sequence") || str_eq(bi, "sort") || str_eq(bi, "min")
        || str_eq(bi, "max")
}

/// `?length`: the UTF-16 length of a string, or the number of items of a
/// sequence.
pub fn length(t: &TModel) -> (r: Result<TModel, TemplateError>)
    requires
        crate::sequences::range_ok(t@),
    ensures
        match length_result(t@) {
            Ok(x) => r matches Ok(v) && v@ == x,
            Err(m) => r matches Err(e) && crate::error::is_misc(e, m),
        },
{
    if let Some(s) = scalar_text_of(t) {
        let u = crate::text::encode_utf16(s.as_str());
        return Ok(TModel::Number(crate::number::TNumber::Long(u.len() as i64)));
    }
    let items = crate::sequences::sequence_items(t, "length")?;
    proof {
        crate::value::lemma_vals_len(items@);
    }
    Ok(TModel::Number(crate::number::TNumber::Long(items.len() as i64)))
}

/// The result of a built-in that takes only its target.
fn target_only_of(bi: &str, t: &TModel) -> (r: Result<TModel, TemplateError>)
    requires
        val_ok(t@),
    ensures
        answers(r, msg_result(target_only(bi@, t@))),
{
    proof {
        crate::sequences::lemma_val_ok_items(t@);
        lemma_target_only_ok(bi@, t@);
    }
    if str_eq(bi, "size") {
        crate::seq_builtins::size(t)
    } else if str_eq(bi, "first") {
        crate::seq_builtins::first(t)
    } else if str_eq(bi, "last") {
        crate::seq_builtins::last(t)
    } else if str_eq(bi, "reverse") {
        crate::seq_builtins::reverse(t)
    } else if str_eq(bi, "length") {
        length(t)
    } else if str_eq(bi, "sequence") {
        crate::seq_builtins::sequence(t)
    } else if str_eq(bi, "sort") {
        crate::sort::sort(t)
    } else if str_eq(bi, "min") {
        crate::compare::min(t)
    } else {
        crate::compare::max(t)
    }
}

/// Keys read from items are as many as the items.
pub proof fn lemma_keys_of_len(items: Seq<Val>, names: Seq<Seq<char>>)
    ensures
        crate::sort::keys_of(items, names) matches Ok(ks) ==> ks.len() == items.len(),
    decreases items.len(),
{
    if items.len() > 0 {
        lemma_keys_of_len(items.drop_last(), names);
    }
}

/// Items sorted by key names are well formed when the target is.
pub proof fn lemma_sort_by_ok(t: Val, names: Seq<Seq<char>>)
    requires
        val_ok(t),
    ensures
        crate::sort::sort_by_result(t, names) matches Ok(x) ==> val_ok(x),
{
    crate::sequences::lemma_val_ok_items(t);
    match crate::sequences::seq_items(t) {
        Some(items) => {
            lemma_keys_of_len(items, names);
            match crate::sort::keys_of(items, names) {
                Ok(keys) => lemma_sort_keys_ok(items, names.len() > 0, keys),
                Err(_) => {},
            }
        },
        None => {},
    }
}

/// The value of a built-in call.
fn eval_builtin(env: &Env, e: &Expr) -> (r: Result<TModel, TemplateError>)
    requires
        env.wf(),
        evaluable(*e),
    ensures
        answers(r, builtin_val(env.vars_view(), env.classic_compatible, *e)),
    decreases *e, 1nat,
{
    let ghost vars = env.vars_view();
    let ghost classic = env.classic_compatible;
    let (target, name, args) = match &e.kind {
        ExprKind::BuiltIn { target, name, args } => (target, name, args),
        _ => return Err(TemplateError::misc(String::new())),
    };
    let bi = name.as_str();
    let no_args: Vec<Expr> = Vec::new();
    let av: &Vec<Expr> = match args {
        Some(a) => a,
        None => &no_args,
    };
    let sl: Option<&[Expr]> = match args {
        Some(a) => Some(a.as_slice()),
        None => None,
    };
    let n = av.len();
    assert(n == nargs(*args));
    assert(crate::eval_util::args_len(sl) == n);
    proof {
        reveal_strlit("filter");
        reveal_strlit("map");
        reveal_strlit("take_while");
        reveal_strlit("drop_while");
        reveal_strlit("default");
        reveal_strlit("seq_contains");
        reveal_strlit("seq_index_of");
        reveal_strlit("seq_last_index_of");
        reveal_strlit("chunk");
        reveal_strlit("date_if_unknown");
        reveal_strlit("time_if_unknown");
        reveal_strlit("datetime_if_unknown");
        reveal_strlit("markup_string");
    }
    if str_eq(bi, "exists") {
        let v = eval_lenient(env, target)?;
        return Ok(TModel::Boolean(!v.is_nothing()));
    }
    if str_eq(bi, "default") {
        let v = eval_lenient(env, target)?;
        if !v.is_nothing() {
            return Ok(v);
        }
        assert(!is_lambda_builtin(bi@));
        return match args {
            Some(a) => first_present(env, a),
            None => Ok(TModel::Nothing),
        };
    }
    if is_type_test_name(bi) {
        return match eval(env, target) {
            Ok(v) => Ok(TModel::Boolean(type_test_of(bi, &v))),
            Err(x) => if is_missing_error(&x) {
                Ok(TModel::Boolean(false))
            } else {
                Err(x)
            },
        };
    }
    if is_target_only_name(bi) {
        let strict = str_eq(bi, "sequence") || str_eq(bi, "sort") || str_eq(bi, "min") || str_eq(
            bi,
            "max",
        );
        if strict {
            crate::eval_util::check_arg_count(bi, sl, 0, 0)?;
        }
        let t = eval(env, target)?;
        return target_only_of(bi, &t);
    }
    if str_eq(bi, "seq_contains") {
        return eval_contains(env, e);
    }
    if str_eq(bi, "seq_index_of") || str_eq(bi, "seq_last_index_of") {
        return eval_index_of(env, e);
    }
    if str_eq(bi, "chunk") {
        return eval_chunk(env, e);
    }
    if str_eq(bi, "filter") || str_eq(bi, "map") || str_eq(bi, "take_while") || str_eq(bi, "drop_while") {
        return eval_lambda_builtin(env, e);
    }
    let date_kind = if str_eq(bi, "date_if_unknown") {
        Some(crate::value::DateType::Date)
    } else if str_eq(bi, "time_if_unknown") {
        Some(crate::value::DateType::Time)
    } else if str_eq(bi, "datetime_if_unknown") {
        Some(crate::value::DateType::DateTime)
    } else {
        None
    };
    if let Some(kind) = date_kind {
        let t = eval(env, target)?;
        return match t {
            TModel::Date(d) => if d.kind != crate::value::DateType::Unknown {
                Ok(TModel::Date(d))
            } else {
                Ok(TModel::Date(crate::value::DateValue { kind, ..d }))
            },
            _ => Err(TemplateError::type_mismatch("date", t.kind_name())),
        };
    }
    if str_eq(bi, "markup_string") {
        let t = eval(env, target)?;
        return match t {
            TModel::Markup { markup, .. } => Ok(TModel::Scalar(markup)),
            _ => Err(TemplateError::type_mismatch("markup output", t.kind_name())),
        };
    }
    eval_sort_by(env, e)
}

/// `?seq_contains`.
fn eval_contains(env: &Env, e: &Expr) -> (r: Result<TModel, TemplateError>)
    requires
        env.wf(),
        evaluable(*e),
        !(e.kind matches ExprKind::BuiltIn { name, .. } && is_lambda_builtin(name@)),
    ensures
        answers(r, contains_val(env.vars_view(), env.classic_compatible, *e)),
    decreases *e, 0nat,
{
    let ghost vars = env.vars_view();
    let ghost classic = env.classic_compatible;
    let (target, name, args) = match &e.kind {
        ExprKind::BuiltIn { target, name, args } => (target, name, args),
        _ => return Err(TemplateError::misc(String::new())),
    };
    let bi = name.as_str();
    let no_args: Vec<Expr> = Vec::new();
    let av: &Vec<Expr> = match args {
        Some(a) => a,
        None => &no_args,
    };
    let sl: Option<&[Expr]> = match args {
        Some(a) => Some(a.as_slice()),
        None => None,
    };
    let n = av.len();
    assert(n == nargs(*args));
    assert(crate::eval_util::args_len(sl) == n);
    assert(all_evaluable(av@));
    crate::eval_util::check_arg_count(bi, sl, 1, 1)?;
    let t = eval(env, target)?;
    proof {
        lemma_all_evaluable(av@, 0);
    }
    let x = eval_arg(env, &av[0])?;
    proof {
        crate::sequences::lemma_val_ok_items(t@);
        crate::sequences::lemma_val_ok_items(x@);
    }
    let b = crate::seq_builtins::seq_contains(&t, &x)?;
    Ok(TModel::Boolean(b))
}

/// The index `?seq_index_of` or `?seq_last_index_of` gives on the listed
/// items.
fn index_found_of(bi: &str, items: &Vec<TModel>, x: &TModel, from: Option<&TModel>) -> (r: Result<
    TModel,
    TemplateError,
>)
    requires
        bi@ == "seq_index_of"@ || bi@ == "seq_last_index_of"@,
        all_ok(vals(items@)),
        val_ok(x@),
        from matches Some(f) ==> val_ok(f@),
    ensures
        answers(r, index_found(bi@, vals(items@), x@, crate::sequences::opt_val(from))),
{
    let find_first = str_eq(bi, "seq_index_of");
    proof {
        crate::sequences::lemma_val_ok_items(x@);
        if let Some(f) = from {
            crate::sequences::lemma_val_ok_items(f@);
        }
        assert forall|i: int| 0 <= i < vals(items@).len() implies crate::sequences::num_ok(
            #[trigger] vals(items@)[i],
        ) by {
            crate::sequences::lemma_val_ok_items(vals(items@)[i]);
        }
    }
    let i = crate::sequences::seq_index_of_impl(items, x, from, find_first)?;
    Ok(TModel::Number(crate::number::TNumber::Long(i)))
}

/// `?seq_index_of` and `?seq_last_index_of`.
fn eval_index_of(env: &Env, e: &Expr) -> (r: Result<TModel, TemplateError>)
    requires
        env.wf(),
        evaluable(*e),
        !(e.kind matches ExprKind::BuiltIn { name, .. } && is_lambda_builtin(name@)),
        e.kind matches ExprKind::BuiltIn { name, .. } && (name@ == "seq_index_of"@ || name@
            == "seq_last_index_of"@),
    ensures
        answers(r, index_of_val(env.vars_view(), env.classic_compatible, *e)),
    decreases *e, 0nat,
{
    let ghost vars = env.vars_view();
    let ghost classic = env.classic_compatible;
    let (target, name, args) = match &e.kind {
        ExprKind::BuiltIn { target, name, args } => (target, name, args),
        _ => return Err(TemplateError::misc(String::new())),
    };
    let bi = name.as_str();
    let no_args: Vec<Expr> = Vec::new();
    let av: &Vec<Expr> = match args {
        Some(a) => a,
        None => &no_args,
    };
    let sl: Option<&[Expr]> = match args {
        Some(a) => Some(a.as_slice()),
        None => None,
    };
    let n = av.len();
    assert(n == nargs(*args));
    assert(crate::eval_util::args_len(sl) == n);
    assert(all_evaluable(av@));
    crate::eval_util::check_arg_count(bi, sl, 1, 2)?;
    let t = eval(env, target)?;
    proof {
        crate::sequences::lemma_val_ok_items(t@);
    }
    let items = crate::sequences::seq_or_collection_items(&t, bi)?;
    proof {
        lemma_all_evaluable(av@, 0);
    }
    let x = eval_arg(env, &av[0])?;
    if n > 1 {
        proof {
            lemma_all_evaluable(av@, 1);
        }
        let f = eval_arg(env, &av[1])?;
        index_found_of(bi, &items, &x, Some(&f))
    } else {
        index_found_of(bi, &items, &x, None)
    }
}


/// Once a prefix of the items failed through the lambda, all items fail
/// with that error.
pub proof fn lemma_lambda_fold_err(
    vars: Seq<(Seq<char>, Val)>,
    classic: bool,
    bi: Seq<char>,
    param: Option<Seq<char>>,
    body: Expr,
    items: Seq<Val>,
    k: nat,
    n: nat,
)
    requires
        k <= n <= items.len(),
        lambda_fold(vars, classic, bi, param, body, items, k) is Err,
    ensures
        lambda_fold(vars, classic, bi, param, body, items, n) == lambda_fold(vars, classic, bi, param, body, items, k),
    decreases n,
{
    if n > k {
        lemma_lambda_fold_err(vars, classic, bi, param, body, items, k, (n - 1) as nat);
    }
}

/// Every argument of a lambda built-in is a lambda with a body the
/// evaluator handles, or an expression it handles.
pub proof fn lemma_lambda_args(es: Seq<Expr>, i: int)
    requires
        lambda_args_evaluable(es),
        0 <= i < es.len(),
    ensures
        match es[i].kind {
            ExprKind::Lambda { body, .. } => evaluable(*body),
            _ => evaluable(es[i]),
        },
    decreases es.len(),
{
    if i < es.len() - 1 {
        lemma_lambda_args(es.drop_last(), i);
        assert(es.drop_last()[i] == es[i]);
    }
}

/// The variables in scope with a lambda's parameter bound to an item.
fn bind_env(env: &Env, param: Option<&String>, item: &TModel) -> (r: Env)
    requires
        env.wf(),
        val_ok(item@),
    ensures
        r.wf(),
        r.classic_compatible == env.classic_compatible,
        r.vars_view() == bind_param(
            env.vars_view(),
            match param {
                Some(p) => Some(p@),
                None => None,
            },
            item@,
        ),
{
    let mut vars: Vec<(String, TModel)> = Vec::new();
    let ghost head: Seq<(Seq<char>, Val)> = match param {
        Some(p) => seq![(p@, item@)],
        None => Seq::empty(),
    };
    match param {
        Some(p) => {
            let ghost before = vars@;
            vars.push((p.clone(), item.copy_model()));
            proof {
                crate::value::lemma_entry_vals_push(before, vars@.last());
                assert(before =~= Seq::<(String, TModel)>::empty());
                assert(entry_vals(before) =~= Seq::<(Seq<char>, Val)>::empty());
                assert(vars@ =~= before.push(vars@.last()));
            }
        },
        None => {
            assert(entry_vals(vars@) =~= Seq::<(Seq<char>, Val)>::empty());
        },
    }
    proof {
        crate::value::lemma_entry_vals_len(env.vars@);
        assert(head + env.vars_view().take(0) =~= head);
    }
    let mut i: usize = 0;
    while i < env.vars.len()
        invariant
            i <= env.vars@.len(),
            env.vars_view().len() == env.vars@.len(),
            entry_vals(vars@) == head + env.vars_view().take(i as int),
        decreases env.vars.len() - i,
    {
        proof {
            crate::value::lemma_entry_vals_index(env.vars@, i as int);
        }
        let k = env.vars[i].0.clone();
        let m = env.vars[i].1.copy_model();
        let ghost before = vars@;
        vars.push((k, m));
        proof {
            crate::value::lemma_entry_vals_push(before, vars@.last());
            assert(vars@ =~= before.push(vars@.last()));
            assert(head + env.vars_view().take(i as int + 1) =~= (head + env.vars_view().take(i as int)).push(
                env.vars_view()[i as int],
            ));
        }
        i += 1;
    }
    proof {
        assert(env.vars_view().take(i as int) =~= env.vars_view());
    }
    let r = Env { vars, classic_compatible: env.classic_compatible };
    assert forall|j: int| 0 <= j < r.vars_view().len() implies val_ok(#[trigger] r.vars_view()[j].1) by {
        if j < head.len() {
            assert(r.vars_view()[j] == head[j]);
        } else {
            assert(r.vars_view()[j] == env.vars_view()[j - head.len()]);
        }
    }
    r
}

/// `?filter`, `?map`, `?take_while` and `?drop_while`.
fn eval_lambda_builtin(env: &Env, e: &Expr) -> (r: Result<TModel, TemplateError>)
    requires
        env.wf(),
        evaluable(*e),
        e.kind matches ExprKind::BuiltIn { name, .. } && is_lambda_builtin(name@),
    ensures
        answers(r, lambda_val(env.vars_view(), env.classic_compatible, *e)),
    decreases *e, 0nat,
{
    let ghost vars = env.vars_view();
    let ghost classic = env.classic_compatible;
    proof {
        reveal_strlit("filter");
        reveal_strlit("map");
        reveal_strlit("take_while");
        reveal_strlit("drop_while");
    }
    let (target, name, args) = match &e.kind {
        ExprKind::BuiltIn { target, name, args } => (target, name, args),
        _ => return Err(TemplateError::misc(String::new())),
    };
    let bi = name.as_str();
    let no_args: Vec<Expr> = Vec::new();
    let av: &Vec<Expr> = match args {
        Some(a) => a,
        None => &no_args,
    };
    let sl: Option<&[Expr]> = match args {
        Some(a) => Some(a.as_slice()),
        None => None,
    };
    let n = av.len();
    assert(n == nargs(*args));
    assert(crate::eval_util::args_len(sl) == n);
    crate::eval_util::check_arg_count(bi, sl, 1, 1)?;
    let a = &av[0];
    proof {
        lemma_lambda_args(av@, 0);
    }
    match &a.kind {
        ExprKind::Lambda { params, body } => {
            let t = eval(env, target)?;
            proof {
                crate::sequences::lemma_val_ok_items(t@);
            }
            let items = crate::sequences::sequence_items(&t, bi)?;
            let ghost iv = crate::value::vals(items@);
            proof {
                crate::value::lemma_vals_len(items@);
            }
            let param: Option<&String> = if params.len() > 0 {
                Some(&params[0])
            } else {
                None
            };
            let ghost pv: Option<Seq<char>> = if params@.len() > 0 {
                Some(params@[0]@)
            } else {
                None
            };
            let is_map = str_eq(bi, "map");
            let is_filter = str_eq(bi, "filter");
            let is_take = str_eq(bi, "take_while");
            let mut out: Vec<TModel> = Vec::new();
            let mut done = false;
            let mut i: usize = 0;
            proof {
                assert(crate::value::vals(out@) =~= Seq::<Val>::empty());
            }
            #[verifier::loop_isolation(false)]
            while i < items.len()
                invariant
                    i <= items@.len(),
                    iv.len() == items@.len(),
                    lambda_fold(vars, classic, bi@, pv, **body, iv, i as nat) == Ok::<LambdaRun, Fail>(
                        LambdaRun { out: crate::value::vals(out@), done },
                    ),
                    all_ok(crate::value::vals(out@)),
                    done ==> is_take || (!is_map && !is_filter),
                decreases items.len() - i,
            {
                proof {
                    crate::value::lemma_vals_index(items@, i as int);
                }
                let ghost st = LambdaRun { out: crate::value::vals(out@), done };
                proof {
                    assert(lambda_fold(vars, classic, bi@, pv, **body, iv, (i + 1) as nat) == lambda_step(
                        vars,
                        classic,
                        bi@,
                        pv,
                        **body,
                        iv[i as int],
                        st,
                    ));
                }
                let ghost before = out@;
                if done && is_take {
                } else if done && !is_map && !is_filter {
                    let c = items[i].copy_model();
                    out.push(c);
                    proof {
                        crate::value::lemma_vals_push(before, c);
                    }
                } else {
                    let env2 = bind_env(env, param, &items[i]);
                    let v = match eval(&env2, body) {
                        Ok(v) => v,
                        Err(x) => {
                            proof {
                                lemma_lambda_fold_err(vars, classic, bi@, pv, **body, iv, (i + 1) as nat, iv.len());
                            }
                            return Err(x);
                        },
                    };
                    if is_map {
                        if v.is_nothing() {
                            proof {
                                lemma_lambda_fold_err(vars, classic, bi@, pv, **body, iv, (i + 1) as nat, iv.len());
                            }
                            return Err(TemplateError::misc(String::from_str(
                                "The element mapper function has returned no return value (has returned null).",
                            )));
                        }
                        let ghost vv = v@;
                        out.push(v);
                        proof {
                            crate::value::lemma_vals_push(before, out@.last());
                            assert(before.push(out@.last()) =~= out@);
                        }
                    } else {
                        let b = match v {
                            TModel::Boolean(b) => b,
                            _ => {
                                proof {
                                    lemma_lambda_fold_err(vars, classic, bi@, pv, **body, iv, (i + 1) as nat, iv.len());
                                }
                                return Err(TemplateError::misc(
                                    String::from_str("The filter expression had to return a boolean value"),
                                ));
                            },
                        };
                        if is_filter {
                            if b {
                                let c = items[i].copy_model();
                                out.push(c);
                                proof {
                                    crate::value::lemma_vals_push(before, c);
                                }
                            }
                        } else if is_take {
                            if b {
                                let c = items[i].copy_model();
                                out.push(c);
                                proof {
                                    crate::value::lemma_vals_push(before, c);
                                }
                            } else {
                                done = true;
                            }
                        } else {
                            if !b {
                                let c = items[i].copy_model();
                                out.push(c);
                                proof {
                                    crate::value::lemma_vals_push(before, c);
                                }
                                done = true;
                            }
                        }
                    }
                }
                i += 1;
            }
            Ok(TModel::Sequence(out))
        },
        _ => {
            eval(env, a)?;
            let mut m = String::from_str("The argument to ?");
            crate::text::push_str(&mut m, bi);
            crate::text::push_str(&mut m, " must be a lambda expression");
            proof {
                assert(m@ =~= not_lambda_msg(bi@));
            }
            Err(TemplateError::misc(m))
        },
    }
}

/// `?chunk`.
fn eval_chunk(env: &Env, e: &Expr) -> (r: Result<TModel, TemplateError>)
    requires
        env.wf(),
        evaluable(*e),
        !(e.kind matches ExprKind::BuiltIn { name, .. } && is_lambda_builtin(name@)),
    ensures
        answers(r, chunk_val(env.vars_view(), env.classic_compatible, *e)),
    decreases *e, 0nat,
{
    let ghost vars = env.vars_view();
    let ghost classic = env.classic_compatible;
    let (target, name, args) = match &e.kind {
        ExprKind::BuiltIn { target, name, args } => (target, name, args),
        _ => return Err(TemplateError::misc(String::new())),
    };
    let bi = name.as_str();
    let no_args: Vec<Expr> = Vec::new();
    let av: &Vec<Expr> = match args {
        Some(a) => a,
        None => &no_args,
    };
    let sl: Option<&[Expr]> = match args {
        Some(a) => Some(a.as_slice()),
        None => None,
    };
    let n = av.len();
    assert(n == nargs(*args));
    assert(crate::eval_util::args_len(sl) == n);
    assert(all_evaluable(av@));
    crate::eval_util::check_arg_count(bi, sl, 1, 2)?;
    proof {
        lemma_all_evaluable(av@, 0);
    }
    let sv = eval_arg(env, &av[0])?;
    let num = crate::sequences::method_number_arg(&sv, 0, bi)?;
    let size = crate::number::trunc_i64(&num);
    if let Some(k) = size {
        if k < 1 {
            return Err(TemplateError::misc(
                String::from_str("The 1st argument to ?chunk (...) must be at least 1."),
            ));
        }
    }
    let filler: Option<TModel> = if n > 1 {
        proof {
            lemma_all_evaluable(av@, 1);
        }
        let f = eval_arg(env, &av[1])?;
        Some(f)
    } else {
        None
    };
    let t = eval(env, target)?;
    let res = crate::seq_builtins::chunk(&t, &sv, filler.as_ref());
    proof {
        crate::sequences::lemma_val_ok_items(t@);
        match crate::sequences::seq_items(t@) {
            Some(items) => {
                let fo = match &filler {
                    Some(f) => Some(f@),
                    None => None,
                };
                lemma_chunks_ok(items, num.truncated() as nat, crate::seq_builtins::filler_of(fo));
            },
            None => {},
        }
    }
    res
}

/// `?sort_by`.
fn eval_sort_by(env: &Env, e: &Expr) -> (r: Result<TModel, TemplateError>)
    requires
        env.wf(),
        evaluable(*e),
        !(e.kind matches ExprKind::BuiltIn { name, .. } && is_lambda_builtin(name@)),
    ensures
        answers(r, sort_by_val(env.vars_view(), env.classic_compatible, *e)),
    decreases *e, 0nat,
{
    let ghost vars = env.vars_view();
    let ghost classic = env.classic_compatible;
    let (target, name, args) = match &e.kind {
        ExprKind::BuiltIn { target, name, args } => (target, name, args),
        _ => return Err(TemplateError::misc(String::new())),
    };
    let bi = name.as_str();
    let no_args: Vec<Expr> = Vec::new();
    let av: &Vec<Expr> = match args {
        Some(a) => a,
        None => &no_args,
    };
    let sl: Option<&[Expr]> = match args {
        Some(a) => Some(a.as_slice()),
        None => None,
    };
    let n = av.len();
    assert(n == nargs(*args));
    assert(crate::eval_util::args_len(sl) == n);
    assert(all_evaluable(av@));
    if n < 1 {
        return Err(TemplateError::misc(
            String::from_str("?sort_by(...) expects 1 argument but has received none."),
        ));
    }
    let mut names: Vec<String> = Vec::new();
    assert(crate::text::strings_view(names@) =~= Seq::<Seq<char>>::empty());
    let mut i: usize = 0;
    #[verifier::loop_isolation(false)]
    while i < n
        invariant
            i <= n,
            names_from_args(vars, classic, av@, i as nat) == Ok::<Seq<Seq<char>>, Fail>(
                crate::text::strings_view(names@),
            ),
        decreases n - i,
    {
        proof {
            lemma_all_evaluable(av@, i as int);
        }
        let v = match eval_arg(env, &av[i]) {
            Ok(v) => v,
            Err(x) => {
                proof {
                    lemma_names_err(vars, classic, av@, (i + 1) as nat, n as nat);
                }
                return Err(x);
            },
        };
        proof {
            crate::sequences::lemma_val_ok_items(v@);
        }
        match crate::sort::push_arg_key_names(&v, &mut names) {
            Ok(()) => {},
            Err(x) => {
                proof {
                    lemma_names_err(vars, classic, av@, (i + 1) as nat, n as nat);
                }
                return Err(x);
            },
        }
        i += 1;
    }
    let t = eval(env, target)?;
    proof {
        lemma_sort_by_ok(t@, crate::text::strings_view(names@));
    }
    crate::sort::sort_by(&t, &names)
}

/// What `${expr}` prints, before it is turned into text: the value, or
/// nothing for a null in the classic-compatible mode; a null is otherwise a
/// missing-value error that names the whole expression.
pub open spec fn interpolation_val(vars: Seq<(Seq<char>, Val)>, classic: bool, e: Expr) -> Result<
    Option<Val>,
    Fail,
> {
    match eval_val(vars, classic, e) {
        Err(f) => Err(f),
        Ok(v) => if !(v is Nothing) {
            Ok(Some(v))
        } else if classic {
            Ok(None)
        } else {
            Err(Fail::Missing(desc(e)))
        },
    }
}

/// The value `${expr}` prints.
pub fn interpolated(env: &Env, e: &Expr) -> (r: Result<Option<TModel>, TemplateError>)
    requires
        env.wf(),
        evaluable(*e),
    ensures
        match interpolation_val(env.vars_view(), env.classic_compatible, *e) {
            Ok(Some(v)) => r matches Ok(Some(m)) && m@ == v && val_ok(v),
            Ok(None) => r matches Ok(None),
            Err(f) => r matches Err(x) && fail_of(x) == f,
        },
{
    let v = eval(env, e)?;
    if !v.is_nothing() {
        return Ok(Some(v));
    }
    if env.classic_compatible {
        return Ok(None);
    }
    Err(TemplateError::invalid_reference(crate::describe::expr_desc(e)))
}

} // verus!
