//! Helpers of the built-ins: loose equality of values, and the checks of
//! the number of arguments.
use vstd::prelude::*;
use crate::ast::Expr;
use crate::error::{is_misc, TemplateError};
use crate::sequences::{num_ok, scalar_text, scalar_text_of};
use crate::text::push_str;
use crate::value::{TModel, Val};

verus! {

/// Loose equality: numbers by value, strings by text, booleans by value;
/// other pairs are not equal.
pub open spec fn loosely_equal(a: Val, b: Val) -> bool {
    match (a, b) {
        (Val::Number(x), Val::Number(y)) => x.num_eq(y),
        (Val::Boolean(x), Val::Boolean(y)) => x == y,
        _ => match (scalar_text(a), scalar_text(b)) {
            (Some(x), Some(y)) => x == y,
            _ => false,
        },
    }
}

/// Loose equality of two values: numbers by value, strings by text,
/// booleans by value; other pairs are not equal.
pub fn models_equal(a: &TModel, b: &TModel) -> (r: Result<bool, TemplateError>)
    requires
        num_ok(a@),
        num_ok(b@),
    ensures
        r == Ok::<bool, TemplateError>(loosely_equal(a@, b@)),
{
    match (a, b) {
        (TModel::Number(x), TModel::Number(y)) => {
            return Ok(crate::number::numbers_equal(x, y));
        },
        (TModel::Boolean(x), TModel::Boolean(y)) => {
            return Ok(*x == *y);
        },
        _ => {},
    }
    match (scalar_text_of(a), scalar_text_of(b)) {
        (Some(x), Some(y)) => Ok(crate::text::str_eq(x.as_str(), y.as_str())),
        _ => Ok(false),
    }
}

/// The number of arguments of a built-in call (none without parentheses).
pub open spec fn args_len(args: Option<&[Expr]>) -> nat {
    match args {
        Some(a) => a@.len(),
        None => 0,
    }
}

/// The number of arguments of a built-in call (none without parentheses).
pub fn arg_count(args: Option<&[Expr]>) -> (r: usize)
    ensures
        r == args_len(args),
{
    match args {
        Some(a) => a.len(),
        None => 0,
    }
}

/// How many arguments a built-in expects, in messages: `no`, `2`,
/// `1 or 2`, `1 to 3`.
pub open spec fn count_desc(min: nat, max: nat) -> Seq<char> {
    if min == max {
        if max == 0 {
            "no"@
        } else {
            crate::text::decimal(max)
        }
    } else if max == min + 1 {
        crate::text::decimal(min) + " or "@ + crate::text::decimal(max)
    } else {
        crate::text::decimal(min) + " to "@ + crate::text::decimal(max)
    }
}

/// Message of a built-in called with a wrong number of arguments.
pub open spec fn arg_count_msg(name: Seq<char>, n: nat, min: nat, max: nat) -> Seq<char> {
    "?"@ + name + "(...) expects "@ + count_desc(min, max) + " argument"@ + (if max > 1 {
        "s"@
    } else {
        ""@
    }) + " but has received "@ + (if n == 0 {
        "none"@
    } else {
        crate::text::decimal(n)
    }) + "."@
}

/// Checks that a built-in got between `min` and `max` arguments.
pub fn check_arg_count(name: &str, args: Option<&[Expr]>, min: usize, max: usize) -> (r: Result<
    (),
    TemplateError,
>)
    requires
        min <= max,
    ensures
        min <= args_len(args) <= max ==> r is Ok,
        !(min <= args_len(args) <= max) ==> (r matches Err(e) && is_misc(
            e,
            arg_count_msg(name@, args_len(args), min as nat, max as nat),
        )),
{
    let n = arg_count(args);
    if n < min || n > max {
        let mut s = String::from_str("?");
        push_str(&mut s, name);
        push_str(&mut s, "(...) expects ");
        if min == max {
            if max == 0 {
                push_str(&mut s, "no");
            } else {
                let t = crate::text::usize_text(max);
                push_str(&mut s, t.as_str());
            }
        } else if max - min == 1 {
            let t = crate::text::usize_text(min);
            push_str(&mut s, t.as_str());
            push_str(&mut s, " or ");
            let u = crate::text::usize_text(max);
            push_str(&mut s, u.as_str());
        } else {
            let t = crate::text::usize_text(min);
            push_str(&mut s, t.as_str());
            push_str(&mut s, " to ");
            let u = crate::text::usize_text(max);
            push_str(&mut s, u.as_str());
        }
        push_str(&mut s, " argument");
        if max > 1 {
            push_str(&mut s, "s");
        } else {
            push_str(&mut s, "");
        }
        push_str(&mut s, " but has received ");
        if n == 0 {
            push_str(&mut s, "none");
        } else {
            let t = crate::text::usize_text(n);
            push_str(&mut s, t.as_str());
        }
        push_str(&mut s, ".");
        proof {
            assert(s@ =~= arg_count_msg(name@, args_len(args), min as nat, max as nat));
        }
        return Err(TemplateError::misc(s));
    }
    Ok(())
}

} // verus!
