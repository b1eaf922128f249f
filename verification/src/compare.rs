//! Comparison of template values: the comparison operators, and the
//! comparison of `?min` / `?max`.
use vstd::prelude::*;
use crate::error::{is_misc, TemplateError};
use crate::number::TNumber;
use crate::sequences::{
    date_kinds_msg, item_eq, items_error, listable_items, num_ok, scalar_text, scalar_text_of,
    unknown_date_msg, range_ok,
};
use crate::text::push_str;
use crate::value::{lemma_vals_index, lemma_vals_len, type_name_of, vals, DateType, TModel, Val};
use unicode_normalization::UnicodeNormalization;

verus! {

/// A comparison operator.
#[derive(Debug, Clone, Copy, PartialEq, Eq, Structural)]
pub enum CmpOp {
    Eq,
    NotEq,
    Gt,
    Gte,
    Lt,
    Lte,
}

/// The operator as written in templates.
pub open spec fn op_text(op: CmpOp) -> Seq<char> {
    match op {
        CmpOp::Eq => "=="@,
        CmpOp::NotEq => "!="@,
        CmpOp::Gt => ">"@,
        CmpOp::Gte => ">="@,
        CmpOp::Lt => "<"@,
        CmpOp::Lte => "<="@,
    }
}

/// The operator as written in templates.
pub fn cmp_op_str(op: CmpOp) -> (r: &'static str)
    ensures
        r@ == op_text(op),
{
    match op {
        CmpOp::Eq => "==",
        CmpOp::NotEq => "!=",
        CmpOp::Gt => ">",
        CmpOp::Gte => ">=",
        CmpOp::Lt => "<",
        CmpOp::Lte => "<=",
    }
}

/// The NFKC normalization of a text, as computed by the
/// `unicode-normalization` crate.
pub uninterp spec fn nfkc(s: Seq<char>) -> Seq<char>;

/// The text in Unicode normalization form KC, from
/// `UnicodeNormalization::nfkc` of the `unicode-normalization` crate; the
/// contract only names the result, which depends on the text alone.
#[verifier::external_body]
fn nfkc_text(s: &str) -> (r: String)
    ensures
        r@ == nfkc(s@),
{
    s.nfkc().collect()
}

/// Sign of the comparison of two integers: -1, 0 or 1.
pub open spec fn int_sign(a: int, b: int) -> int {
    if a < b {
        -1
    } else if a == b {
        0
    } else {
        1
    }
}

/// Sign of the comparison of two numbers by value.
pub open spec fn number_sign(a: TNumber, b: TNumber) -> int {
    if a.lt(b) {
        -1
    } else if a.num_eq(b) {
        0
    } else {
        1
    }
}

/// Sign of the comparison of two texts by UTF-16 code units.
pub open spec fn text_sign(a: Seq<char>, b: Seq<char>) -> int {
    let o = crate::text::units_order(crate::text::utf16_units(a), crate::text::utf16_units(b));
    if o == std::cmp::Ordering::Less {
        -1
    } else if o == std::cmp::Ordering::Equal {
        0
    } else {
        1
    }
}

/// Sign of the comparison of two dates by instant.
pub open spec fn date_sign(a: crate::value::DateValue, b: crate::value::DateValue) -> int {
    int_sign(a.millis as int, b.millis as int)
}

/// Sign of the comparison of two booleans, `false` before `true`.
pub open spec fn bool_sign(a: bool, b: bool) -> int {
    int_sign(
        if a {
            1
        } else {
            0
        },
        if b {
            1
        } else {
            0
        },
    )
}

/// A 32-bit integer as a mathematical integer.
pub open spec fn int_of(s: i32) -> int {
    s as int
}

/// Whether the operator holds for a comparison of sign `s`.
pub open spec fn op_holds(op: CmpOp, s: int) -> bool {
    match op {
        CmpOp::Eq => s == 0,
        CmpOp::NotEq => s != 0,
        CmpOp::Gt => s > 0,
        CmpOp::Gte => s >= 0,
        CmpOp::Lt => s < 0,
        CmpOp::Lte => s <= 0,
    }
}

/// Message of an ordering operator on values that only support equality.
pub open spec fn cant_use_op_msg(op: Seq<char>, kind: Seq<char>) -> Seq<char> {
    "Can't use operator \""@ + op + "\" on "@ + kind + " values."@
}

/// Message of a comparison of values of different types.
pub open spec fn mismatch_msg() -> Seq<char> {
    "Can't compare values of these types. Allowed comparisons are between two numbers, two strings, two dates, or two booleans."@
}

/// Result of comparing two values with an operator: numbers by value, dates
/// of the same kind by instant, strings (equality only) by their NFKC forms,
/// booleans (equality only) by value; other pairs are an error.
pub open spec fn compare_result(l: Val, r: Val, op: CmpOp) -> Result<bool, Seq<char>> {
    let eq_only = op == CmpOp::Eq || op == CmpOp::NotEq;
    match (l, r) {
        (Val::Number(a), Val::Number(b)) => Ok(op_holds(op, number_sign(a, b))),
        (Val::Date(a), Val::Date(b)) => if a.kind != b.kind {
            Err(date_kinds_msg(a.kind, b.kind))
        } else {
            Ok(op_holds(op, date_sign(a, b)))
        },
        (Val::Boolean(a), Val::Boolean(b)) => if !eq_only {
            Err(cant_use_op_msg(op_text(op), "boolean"@))
        } else {
            Ok(op_holds(op, bool_sign(a, b)))
        },
        _ => match (scalar_text(l), scalar_text(r)) {
            (Some(a), Some(b)) => if !eq_only {
                Err(cant_use_op_msg(op_text(op), "string"@))
            } else {
                Ok(op_holds(op, text_sign(nfkc(a), nfkc(b))))
            },
            _ => Err(mismatch_msg()),
        },
    }
}

fn cant_use_op(op: &str, kind: &str) -> (e: TemplateError)
    ensures
        is_misc(e, cant_use_op_msg(op@, kind@)),
{
    let mut s = String::from_str("Can't use operator \"");
    push_str(&mut s, op);
    push_str(&mut s, "\" on ");
    push_str(&mut s, kind);
    push_str(&mut s, " values.");
    TemplateError::misc(s)
}

/// Sign of the comparison of two integers.
fn sign_i64(a: i64, b: i64) -> (r: i32)
    ensures
        r == int_sign(a as int, b as int),
{
    if a < b {
        -1
    } else if a == b {
        0
    } else {
        1
    }
}

/// Sign of the comparison of two texts by UTF-16 code units.
fn text_sign_of(a: &str, b: &str) -> (r: i32)
    ensures
        r == text_sign(a@, b@),
{
    match crate::text::utf16_cmp(a, b) {
        std::cmp::Ordering::Less => -1,
        std::cmp::Ordering::Equal => 0,
        std::cmp::Ordering::Greater => 1,
    }
}

/// Whether the operator holds for a comparison of sign `s`.
fn holds(op: CmpOp, s: i32) -> (r: bool)
    ensures
        r == op_holds(op, int_of(s)),
{
    match op {
        CmpOp::Eq => s == 0,
        CmpOp::NotEq => s != 0,
        CmpOp::Gt => s > 0,
        CmpOp::Gte => s >= 0,
        CmpOp::Lt => s < 0,
        CmpOp::Lte => s <= 0,
    }
}

/// Compares two values with an operator (the `==`, `!=`, `<`, `<=`, `>`
/// and `>=` of templates).
pub fn compare_models(l: &TModel, r: &TModel, op: CmpOp) -> (res: Result<bool, TemplateError>)
    requires
        num_ok(l@),
        num_ok(r@),
    ensures
        match compare_result(l@, r@, op) {
            Ok(b) => res == Ok::<bool, TemplateError>(b),
            Err(msg) => res matches Err(e) && is_misc(e, msg),
        },
{
    let eq_only = op == CmpOp::Eq || op == CmpOp::NotEq;
    match (l, r) {
        (TModel::Number(a), TModel::Number(b)) => {
            let s: i32 = if crate::number::number_less(a, b) {
                -1
            } else if crate::number::numbers_equal(a, b) {
                0
            } else {
                1
            };
            return Ok(holds(op, s));
        },
        (TModel::Date(a), TModel::Date(b)) => {
            if a.kind != b.kind {
                return Err(date_kinds_error(a.kind, b.kind));
            }
            return Ok(holds(op, sign_i64(a.millis, b.millis)));
        },
        (TModel::Boolean(a), TModel::Boolean(b)) => {
            if !eq_only {
                return Err(cant_use_op(cmp_op_str(op), "boolean"));
            }
            let x: i64 = if *a { 1 } else { 0 };
            let y: i64 = if *b { 1 } else { 0 };
            return Ok(holds(op, sign_i64(x, y)));
        },
        _ => {},
    }
    match (scalar_text_of(l), scalar_text_of(r)) {
        (Some(a), Some(b)) => {
            if !eq_only {
                return Err(cant_use_op(cmp_op_str(op), "string"));
            }
            let na = nfkc_text(a.as_str());
            let nb = nfkc_text(b.as_str());
            Ok(holds(op, text_sign_of(na.as_str(), nb.as_str())))
        },
        _ => Err(TemplateError::misc(String::from_str(
            "Can't compare values of these types. Allowed comparisons are between two numbers, two strings, two dates, or two booleans.",
        ))),
    }
}

fn date_kinds_error(l: DateType, r: DateType) -> (e: TemplateError)
    ensures
        is_misc(e, date_kinds_msg(l, r)),
{
    let mut s = String::from_str("Can't compare dates of different types. Left date type is ");
    push_str(&mut s, crate::value::java_date_type_name(l));
    push_str(&mut s, ", right date type is ");
    push_str(&mut s, crate::value::java_date_type_name(r));
    push_str(&mut s, ".");
    TemplateError::misc(s)
}

/// Name of the comparison of `?max` (`greater-than`) or `?min`
/// (`less-than`) in messages.
pub open spec fn min_max_op(want_max: bool) -> Seq<char> {
    if want_max {
        "greater-than"@
    } else {
        "less-than"@
    }
}

/// Message of `?min` / `?max` on values of different types.
pub open spec fn min_max_mismatch_msg(a: Val, b: Val) -> Seq<char> {
    mismatch_msg() + "\nLeft hand operand is a "@ + type_name_of(a) + ".\nRight hand operand is a "@
        + type_name_of(b) + "."@
}

/// Sign of the comparison of `?min` / `?max`: numbers by value, dates of
/// the same known kind by instant; strings, booleans and values of
/// different types are an error.
pub open spec fn min_max_sign(a: Val, b: Val, want_max: bool) -> Result<int, Seq<char>> {
    match (a, b) {
        (Val::Number(x), Val::Number(y)) => Ok(number_sign(x, y)),
        (Val::Date(x), Val::Date(y)) => if x.kind == DateType::Unknown {
            Err(unknown_date_msg("left"@))
        } else if y.kind == DateType::Unknown {
            Err(unknown_date_msg("right"@))
        } else if x.kind != y.kind {
            Err(date_kinds_msg(x.kind, y.kind))
        } else {
            Ok(date_sign(x, y))
        },
        (Val::Boolean(_), Val::Boolean(_)) => Err(cant_use_op_msg(min_max_op(want_max), "boolean"@)),
        _ => match (scalar_text(a), scalar_text(b)) {
            (Some(_), Some(_)) => Err(cant_use_op_msg(min_max_op(want_max), "string"@)),
            _ => Err(min_max_mismatch_msg(a, b)),
        },
    }
}

/// Whether `a` replaces the best value `b` of `?max` (is greater) or
/// `?min` (is less).
pub open spec fn min_max_cmp(a: Val, b: Val, want_max: bool) -> Result<bool, Seq<char>> {
    match min_max_sign(a, b, want_max) {
        Err(m) => Err(m),
        Ok(s) => Ok(
            if want_max {
                s > 0
            } else {
                s < 0
            },
        ),
    }
}

/// The best of the items so far (`None` while all were null), or the first
/// comparison error.
pub open spec fn min_max_acc(items: Seq<Val>, want_max: bool) -> Result<Option<Val>, Seq<char>>
    decreases items.len(),
{
    if items.len() == 0 {
        Ok(None)
    } else {
        match min_max_acc(items.drop_last(), want_max) {
            Err(m) => Err(m),
            Ok(best) => {
                let x = items.last();
                if x is Nothing {
                    Ok(best)
                } else {
                    match best {
                        None => Ok(Some(x)),
                        Some(b) => match min_max_cmp(x, b, want_max) {
                            Err(m) => Err(m),
                            Ok(true) => Ok(Some(x)),
                            Ok(false) => Ok(Some(b)),
                        },
                    }
                }
            },
        }
    }
}

/// Result of `?max` / `?min`: the greatest (least) non-null item of a
/// sequence or collection, the first one among equals; null when there is
/// none.
pub open spec fn min_max_result(v: Val, want_max: bool) -> Result<Val, Seq<char>> {
    match listable_items(v) {
        None => Err(items_error(if want_max { "max"@ } else { "min"@ }, v)),
        Some(items) => match min_max_acc(items, want_max) {
            Err(m) => Err(m),
            Ok(None) => Ok(Val::Nothing),
            Ok(Some(b)) => Ok(b),
        },
    }
}

/// Whether `a` replaces the best value `b` of `?max` or `?min`.
pub fn compare_for_min_max(a: &TModel, b: &TModel, want_max: bool) -> (r: Result<bool, TemplateError>)
    requires
        num_ok(a@),
        num_ok(b@),
    ensures
        match min_max_cmp(a@, b@, want_max) {
            Ok(x) => r == Ok::<bool, TemplateError>(x),
            Err(msg) => r matches Err(e) && is_misc(e, msg),
        },
{
    let op = if want_max {
        "greater-than"
    } else {
        "less-than"
    };
    let s: i32 = match (a, b) {
        (TModel::Number(x), TModel::Number(y)) => {
            if crate::number::number_less(x, y) {
                -1
            } else if crate::number::numbers_equal(x, y) {
                0
            } else {
                1
            }
        },
        (TModel::Date(x), TModel::Date(y)) => {
            if x.kind == DateType::Unknown {
                return Err(crate::sequences::unknown_date_error("left"));
            }
            if y.kind == DateType::Unknown {
                return Err(crate::sequences::unknown_date_error("right"));
            }
            if x.kind != y.kind {
                return Err(date_kinds_error(x.kind, y.kind));
            }
            sign_i64(x.millis, y.millis)
        },
        (TModel::Boolean(_), TModel::Boolean(_)) => {
            return Err(cant_use_op(op, "boolean"));
        },
        _ => {
            if scalar_text_of(a).is_some() && scalar_text_of(b).is_some() {
                return Err(cant_use_op(op, "string"));
            }
            let mut m = String::from_str(
                "Can't compare values of these types. Allowed comparisons are between two numbers, two strings, two dates, or two booleans.",
            );
            push_str(&mut m, "\nLeft hand operand is a ");
            push_str(&mut m, a.kind_name());
            push_str(&mut m, ".\nRight hand operand is a ");
            push_str(&mut m, b.kind_name());
            push_str(&mut m, ".");
            return Err(TemplateError::misc(m));
        },
    };
    if want_max {
        Ok(s > 0)
    } else {
        Ok(s < 0)
    }
}

/// `?max` (`want_max`) or `?min`.
pub fn min_max_impl(m: &TModel, want_max: bool) -> (r: Result<TModel, TemplateError>)
    requires
        crate::seq_builtins::items_ok(m@),
    ensures
        match min_max_result(m@, want_max) {
            Ok(x) => r matches Ok(v) && v@ == x,
            Err(msg) => r matches Err(e) && is_misc(e, msg),
        },
{
    let bi = if want_max {
        "max"
    } else {
        "min"
    };
    let items = crate::sequences::seq_or_collection_items(m, bi)?;
    proof {
        lemma_vals_len(items@);
    }
    let ghost iv = vals(items@);
    let mut best: Option<TModel> = None;
    let mut i: usize = 0;
    proof {
        assert(iv.take(0) =~= Seq::<Val>::empty());
    }
    while i < items.len()
        invariant
            i <= items.len(),
            iv == vals(items@),
            iv.len() == items.len(),
            crate::sequences::all_num_ok(iv),
            min_max_acc(iv.take(i as int), want_max) == Ok::<Option<Val>, Seq<char>>(
                match best {
                    Some(b) => Some(b@),
                    None => None,
                },
            ),
            best matches Some(b) ==> num_ok(b@),
            listable_items(m@) == Some(iv),
        decreases items.len() - i,
    {
        proof {
            lemma_vals_index(items@, i as int);
            assert(iv.take(i as int + 1).drop_last() =~= iv.take(i as int));
            assert(iv.take(i as int + 1).last() == iv[i as int]);
            assert(num_ok(iv[i as int]));
        }
        if !items[i].is_nothing() {
            let replace = match &best {
                None => true,
                Some(b) => match compare_for_min_max(&items[i], b, want_max) {
                    Ok(x) => x,
                    Err(e) => {
                        proof {
                            lemma_min_max_acc_err(iv, want_max, i as int + 1);
                        }
                        return Err(e);
                    },
                },
            };
            if replace {
                best = Some(items[i].copy_model());
            }
        }
        i += 1;
    }
    proof {
        assert(iv.take(iv.len() as int) =~= iv);
    }
    match best {
        Some(b) => Ok(b),
        None => Ok(TModel::Nothing),
    }
}

/// Once a comparison failed, `?min` / `?max` fail with its error whatever
/// items follow.
pub proof fn lemma_min_max_acc_err(items: Seq<Val>, want_max: bool, k: int)
    requires
        0 <= k <= items.len(),
        min_max_acc(items.take(k), want_max) is Err,
    ensures
        min_max_acc(items, want_max) == min_max_acc(items.take(k), want_max),
    decreases items.len() - k,
{
    if k < items.len() {
        assert(items.take(k + 1).drop_last() =~= items.take(k));
        lemma_min_max_acc_err(items, want_max, k + 1);
    } else {
        assert(items.take(k) =~= items);
    }
}

/// `?max`.
pub fn max(m: &TModel) -> (r: Result<TModel, TemplateError>)
    requires
        crate::seq_builtins::items_ok(m@),
    ensures
        match min_max_result(m@, true) {
            Ok(x) => r matches Ok(v) && v@ == x,
            Err(msg) => r matches Err(e) && is_misc(e, msg),
        },
{
    min_max_impl(m, true)
}

/// `?min`.
pub fn min(m: &TModel) -> (r: Result<TModel, TemplateError>)
    requires
        crate::seq_builtins::items_ok(m@),
    ensures
        match min_max_result(m@, false) {
            Ok(x) => r matches Ok(v) && v@ == x,
            Err(msg) => r matches Err(e) && is_misc(e, msg),
        },
{
    min_max_impl(m, false)
}

} // verus!
