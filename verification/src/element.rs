//! Template elements as the instruction stack shows them: which elements
//! appear there, and the one-line description of each (`#if x`,
//! `#list xs as x`, `${x} auto-escaped`, `@m 1, b=2`, ...), cut to 40
//! characters.
use vstd::prelude::*;
use crate::ast::Expr;
use crate::describe::{desc, expr_desc};
use crate::macro_args::{macro_def_description, macro_description, MacroDef};
use crate::settings::{shorten_java, shortened};
use crate::text::push_str;

verus! {

/// The operator of an assignment.
#[derive(Debug, Clone, Copy, PartialEq, Eq, Structural)]
pub enum AssignOp {
    Equals,
    PlusEq,
    MinusEq,
    TimesEq,
    DivideEq,
    ModuloEq,
    PlusPlus,
    MinusMinus,
}

/// An assignment operator as written.
pub open spec fn assign_op_text(op: AssignOp) -> Seq<char> {
    match op {
        AssignOp::Equals => "="@,
        AssignOp::PlusEq => "+="@,
        AssignOp::MinusEq => "-="@,
        AssignOp::TimesEq => "*="@,
        AssignOp::DivideEq => "/="@,
        AssignOp::ModuloEq => "%="@,
        AssignOp::PlusPlus => "++"@,
        AssignOp::MinusMinus => "--"@,
    }
}

/// An assignment operator as written.
pub fn assign_op_symbol(op: AssignOp) -> (r: &'static str)
    ensures
        r@ == assign_op_text(op),
{
    match op {
        AssignOp::Equals => "=",
        AssignOp::PlusEq => "+=",
        AssignOp::MinusEq => "-=",
        AssignOp::TimesEq => "*=",
        AssignOp::DivideEq => "/=",
        AssignOp::ModuloEq => "%=",
        AssignOp::PlusPlus => "++",
        AssignOp::MinusMinus => "--",
    }
}

/// What a macro call names: a macro, a macro of a namespace, or an
/// expression.
pub enum CallTarget {
    Name(String),
    Namespaced { ns: String, name: String },
    Expr(Expr),
}

/// A template element, with what its description reads.
pub enum Element {
    /// Static text, comments, `#noparse`, the header and the trimming
    /// directives: never described.
    Static,
    /// `${expr}`, or `#{expr}` when `legacy`.
    Interpolation { expr: Expr, legacy: bool },
    If { cond: Expr },
    List { seq: Expr, var: String, var2: Option<String> },
    Items { var: String, var2: Option<String> },
    Assign { target: String, op: AssignOp, expr: Expr },
    Global { target: String, expr: Option<Expr> },
    Local { target: String, expr: Option<Expr> },
    Macro { def: MacroDef },
    /// `<@callee args; body_params>`; an argument without a name is
    /// positional.
    Call { callee: CallTarget, args: Vec<(String, Expr)>, body_params: Vec<String> },
    Nested,
    Switch { expr: Expr },
    Break,
    Continue,
    Return { expr: Option<Expr> },
    Stop { msg: Option<Expr> },
    Flush,
    Include { path: Expr },
    Import { path: Expr, ns: String },
    Setting { key: String, value: Expr },
    Transform { expr: Expr },
    Visit { expr: Option<Expr> },
    Recurse { expr: Option<Expr> },
    On { expr: Expr },
    Fallback,
    /// Escape blocks, output-format blocks, `#compress`, `#attempt`,
    /// `#sep` and assignment blocks: never described.
    Container,
}

/// Whether an element appears in the instruction stack of an error.
pub open spec fn shown_in_stack_trace(el: Element) -> bool {
    match el {
        Element::Interpolation { .. } | Element::Call { .. } | Element::Include { .. } | Element::Import {
            ..
        } | Element::Nested | Element::Transform { .. } | Element::Visit { .. } | Element::Recurse {
            ..
        } | Element::Fallback => true,
        _ => false,
    }
}

/// Whether an element appears in the instruction stack of an error.
pub fn element_shown_in_stack_trace(el: &Element) -> (r: bool)
    ensures
        r == shown_in_stack_trace(*el),
{
    match el {
        Element::Interpolation { .. } | Element::Call { .. } | Element::Include { .. } | Element::Import {
            ..
        } | Element::Nested | Element::Transform { .. } | Element::Visit { .. } | Element::Recurse {
            ..
        } | Element::Fallback => true,
        _ => false,
    }
}

/// ` as var` and `, var2` of a listing, when there is a variable.
pub open spec fn loop_vars_text(var: Seq<char>, var2: Option<Seq<char>>) -> Seq<char> {
    if var.len() == 0 {
        Seq::empty()
    } else {
        " as "@ + var + match var2 {
            Some(v) => ", "@ + v,
            None => Seq::empty(),
        }
    }
}

/// An argument of a call: its value, after `name=` when it has a name.
pub open spec fn call_arg_text(a: (String, Expr)) -> Seq<char> {
    if a.0@.len() == 0 {
        desc(a.1)
    } else {
        a.0@ + "="@ + desc(a.1)
    }
}

/// The arguments of a call, separated by `, `.
pub open spec fn call_args_text(args: Seq<(String, Expr)>) -> Seq<char>
    decreases args.len(),
{
    if args.len() == 0 {
        Seq::empty()
    } else if args.len() == 1 {
        call_arg_text(args[0])
    } else {
        call_args_text(args.drop_last()) + ", "@ + call_arg_text(args.last())
    }
}

/// Names separated by `, `.
pub open spec fn names_text(ns: Seq<String>) -> Seq<char>
    decreases ns.len(),
{
    if ns.len() == 0 {
        Seq::empty()
    } else if ns.len() == 1 {
        ns[0]@
    } else {
        names_text(ns.drop_last()) + ", "@ + ns.last()@
    }
}

/// What a call names.
pub open spec fn callee_text(c: CallTarget) -> Seq<char> {
    match c {
        CallTarget::Name(n) => n@,
        CallTarget::Namespaced { ns, name } => ns@ + "."@ + name@,
        CallTarget::Expr(e) => desc(e),
    }
}

/// A call: `@callee`, then ` ` and the arguments when there are any, then
/// `; ` and the body parameters when there are any.
pub open spec fn call_text(callee: CallTarget, args: Seq<(String, Expr)>, body_params: Seq<String>) -> Seq<char> {
    "@"@ + callee_text(callee) + (if args.len() > 0 { " "@ + call_args_text(args) } else { Seq::empty() })
        + (if body_params.len() > 0 { "; "@ + names_text(body_params) } else { Seq::empty() })
}

/// A directive name followed by an optional expression.
pub open spec fn with_opt(name: Seq<char>, e: Option<Expr>) -> Seq<char> {
    match e {
        Some(x) => name + " "@ + desc(x),
        None => name,
    }
}

/// The full description of an element, before shortening; `escaped` tells
/// whether output is escaped where the element stands (an `<#escape>` block
/// or auto-escaping).
pub open spec fn element_text(el: Element, escaped: bool) -> Option<Seq<char>> {
    match el {
        Element::Interpolation { expr, legacy } => Some(
            if legacy {
                "#{"@ + desc(expr) + "}"@
            } else if escaped {
                "${"@ + desc(expr) + "}"@ + " auto-escaped"@
            } else {
                "${"@ + desc(expr) + "}"@
            },
        ),
        Element::If { cond } => Some("#if "@ + desc(cond)),
        Element::List { seq, var, var2 } => Some(
            "#list "@ + desc(seq) + loop_vars_text(
                var@,
                match var2 {
                    Some(v) => Some(v@),
                    None => None,
                },
            ),
        ),
        Element::Items { var, var2 } => Some(
            "#items as "@ + var@ + match var2 {
                Some(v) => ", "@ + v@,
                None => Seq::empty(),
            },
        ),
        Element::Assign { target, op, expr } => Some(
            "#assign "@ + target@ + " "@ + assign_op_text(op) + " "@ + desc(expr),
        ),
        Element::Global { target, expr } => match expr {
            Some(e) => Some("#global "@ + target@ + " = "@ + desc(e)),
            None => None,
        },
        Element::Local { target, expr } => match expr {
            Some(e) => Some("#local "@ + target@ + " = "@ + desc(e)),
            None => None,
        },
        Element::Macro { def } => Some(macro_description(def)),
        Element::Call { callee, args, body_params } => Some(call_text(callee, args@, body_params@)),
        Element::Nested => Some("#nested"@),
        Element::Switch { expr } => Some("#switch "@ + desc(expr)),
        Element::Break => Some("#break"@),
        Element::Continue => Some("#continue"@),
        Element::Return { expr } => Some(with_opt("#return"@, expr)),
        Element::Stop { msg } => Some(with_opt("#stop"@, msg)),
        Element::Flush => Some("#flush"@),
        Element::Include { path } => Some("#include "@ + desc(path)),
        Element::Import { path, ns } => Some("#import "@ + desc(path) + " as "@ + ns@),
        Element::Setting { key, value } => Some("#setting "@ + key@ + "="@ + desc(value)),
        Element::Transform { expr } => Some("#transform "@ + desc(expr)),
        Element::Visit { expr } => Some(with_opt("#visit"@, expr)),
        Element::Recurse { expr } => Some(with_opt("#recurse"@, expr)),
        Element::On { expr } => Some("#on "@ + desc(expr)),
        Element::Fallback => Some("#fallback"@),
        Element::Static | Element::Container => None,
    }
}

/// The description of an element in the instruction stack: its text cut to
/// 40 characters, or none for elements that are never described.
pub open spec fn element_description(el: Element, escaped: bool) -> Option<Seq<char>> {
    match element_text(el, escaped) {
        Some(t) => Some(shortened(t, 40)),
        None => None,
    }
}

/// A directive name followed by an optional expression.
fn with_opt_text(name: &str, e: &Option<Expr>) -> (r: String)
    ensures
        r@ == with_opt(name@, *e),
{
    let mut s = String::from_str(name);
    if let Some(x) = e {
        push_str(&mut s, " ");
        let d = expr_desc(x);
        push_str(&mut s, d.as_str());
    }
    s
}

/// A directive name, a space and an expression.
fn dir_expr(name: &str, e: &Expr) -> (r: String)
    ensures
        r@ == name@ + desc(*e),
{
    let mut s = String::from_str(name);
    let d = expr_desc(e);
    push_str(&mut s, d.as_str());
    s
}

/// What a call names.
fn callee_of(c: &CallTarget) -> (r: String)
    ensures
        r@ == callee_text(*c),
{
    match c {
        CallTarget::Name(n) => n.clone(),
        CallTarget::Namespaced { ns, name } => {
            let mut s = ns.clone();
            push_str(&mut s, ".");
            push_str(&mut s, name.as_str());
            s
        },
        CallTarget::Expr(e) => expr_desc(e),
    }
}

/// The arguments of a call, separated by `, `.
fn call_args_of(args: &Vec<(String, Expr)>) -> (r: String)
    ensures
        r@ == call_args_text(args@),
{
    let mut s = String::new();
    let mut i: usize = 0;
    proof {
        assert(args@.take(0) =~= Seq::<(String, Expr)>::empty());
    }
    while i < args.len()
        invariant
            i <= args@.len(),
            s@ == call_args_text(args@.take(i as int)),
        decreases args.len() - i,
    {
        let ghost before = s@;
        if i > 0 {
            push_str(&mut s, ", ");
        }
        let (k, e) = &args[i];
        if k.as_str().unicode_len() > 0 {
            push_str(&mut s, k.as_str());
            push_str(&mut s, "=");
        }
        let d = expr_desc(e);
        push_str(&mut s, d.as_str());
        proof {
            let t = args@.take(i as int + 1);
            assert(t.drop_last() =~= args@.take(i as int));
            assert(t.last() == args@[i as int]);
            if i == 0 {
                assert(t.len() == 1);
                assert(t[0] == args@[0]);
            }
            assert(s@ =~= call_args_text(t));
        }
        i += 1;
    }
    proof {
        assert(args@.take(i as int) =~= args@);
    }
    s
}

/// Names separated by `, `.
fn names_of(ns: &Vec<String>) -> (r: String)
    ensures
        r@ == names_text(ns@),
{
    let mut s = String::new();
    let mut i: usize = 0;
    proof {
        assert(ns@.take(0) =~= Seq::<String>::empty());
    }
    while i < ns.len()
        invariant
            i <= ns@.len(),
            s@ == names_text(ns@.take(i as int)),
        decreases ns.len() - i,
    {
        if i > 0 {
            push_str(&mut s, ", ");
        }
        push_str(&mut s, ns[i].as_str());
        proof {
            let t = ns@.take(i as int + 1);
            assert(t.drop_last() =~= ns@.take(i as int));
            assert(t.last() == ns@[i as int]);
            if i == 0 {
                assert(t[0] == ns@[0]);
            }
            assert(s@ =~= names_text(t));
        }
        i += 1;
    }
    proof {
        assert(ns@.take(i as int) =~= ns@);
    }
    s
}

/// The full description of an element (see `element_text`).
fn element_text_of(el: &Element, escaped: bool) -> (r: Option<String>)
    ensures
        match element_text(*el, escaped) {
            Some(t) => r matches Some(s) && s@ == t,
            None => r is None,
        },
{
    match el {
        Element::Interpolation { expr, legacy } => {
            let d = expr_desc(expr);
            let mut s = if *legacy {
                String::from_str("#{")
            } else {
                String::from_str("${")
            };
            push_str(&mut s, d.as_str());
            push_str(&mut s, "}");
            if !*legacy && escaped {
                push_str(&mut s, " auto-escaped");
            }
            Some(s)
        },
        Element::If { cond } => Some(dir_expr("#if ", cond)),
        Element::List { seq, var, var2 } => {
            let mut s = dir_expr("#list ", seq);
            if var.as_str().unicode_len() > 0 {
                push_str(&mut s, " as ");
                push_str(&mut s, var.as_str());
                if let Some(v) = var2 {
                    push_str(&mut s, ", ");
                    push_str(&mut s, v.as_str());
                }
            }
            Some(s)
        },
        Element::Items { var, var2 } => {
            let mut s = String::from_str("#items as ");
            push_str(&mut s, var.as_str());
            if let Some(v) = var2 {
                push_str(&mut s, ", ");
                push_str(&mut s, v.as_str());
            }
            Some(s)
        },
        Element::Assign { target, op, expr } => {
            let mut s = String::from_str("#assign ");
            push_str(&mut s, target.as_str());
            push_str(&mut s, " ");
            push_str(&mut s, assign_op_symbol(*op));
            push_str(&mut s, " ");
            let d = expr_desc(expr);
            push_str(&mut s, d.as_str());
            Some(s)
        },
        Element::Global { target, expr } => match expr {
            Some(e) => {
                let mut s = String::from_str("#global ");
                push_str(&mut s, target.as_str());
                push_str(&mut s, " = ");
                let d = expr_desc(e);
                push_str(&mut s, d.as_str());
                Some(s)
            },
            None => None,
        },
        Element::Local { target, expr } => match expr {
            Some(e) => {
                let mut s = String::from_str("#local ");
                push_str(&mut s, target.as_str());
                push_str(&mut s, " = ");
                let d = expr_desc(e);
                push_str(&mut s, d.as_str());
                Some(s)
            },
            None => None,
        },
        Element::Macro { def } => Some(macro_def_description(def)),
        Element::Call { callee, args, body_params } => {
            let mut s = String::from_str("@");
            let c = callee_of(callee);
            push_str(&mut s, c.as_str());
            if args.len() > 0 {
                push_str(&mut s, " ");
                let a = call_args_of(args);
                push_str(&mut s, a.as_str());
            }
            if body_params.len() > 0 {
                push_str(&mut s, "; ");
                let b = names_of(body_params);
                push_str(&mut s, b.as_str());
            }
            Some(s)
        },
        Element::Nested => Some(String::from_str("#nested")),
        Element::Switch { expr } => Some(dir_expr("#switch ", expr)),
        Element::Break => Some(String::from_str("#break")),
        Element::Continue => Some(String::from_str("#continue")),
        Element::Return { expr } => Some(with_opt_text("#return", expr)),
        Element::Stop { msg } => Some(with_opt_text("#stop", msg)),
        Element::Flush => Some(String::from_str("#flush")),
        Element::Include { path } => Some(dir_expr("#include ", path)),
        Element::Import { path, ns } => {
            let mut s = dir_expr("#import ", path);
            push_str(&mut s, " as ");
            push_str(&mut s, ns.as_str());
            Some(s)
        },
        Element::Setting { key, value } => {
            let mut s = String::from_str("#setting ");
            push_str(&mut s, key.as_str());
            push_str(&mut s, "=");
            let d = expr_desc(value);
            push_str(&mut s, d.as_str());
            Some(s)
        },
        Element::Transform { expr } => Some(dir_expr("#transform ", expr)),
        Element::Visit { expr } => Some(with_opt_text("#visit", expr)),
        Element::Recurse { expr } => Some(with_opt_text("#recurse", expr)),
        Element::On { expr } => Some(dir_expr("#on ", expr)),
        Element::Fallback => Some(String::from_str("#fallback")),
        Element::Static | Element::Container => None,
    }
}

/// The description of an element in the instruction stack (see
/// `element_description`); `escaped` tells whether output is escaped where
/// the element stands.
pub fn describe_element(el: &Element, escaped: bool) -> (r: Option<String>)
    ensures
        match element_description(*el, escaped) {
            Some(t) => r matches Some(s) && s@ == t,
            None => r is None,
        },
{
    match element_text_of(el, escaped) {
        Some(t) => Some(shorten_java(t.as_str(), 40)),
        None => None,
    }
}

} // verus!
