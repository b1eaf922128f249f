//! Source-like descriptions of expressions (for error messages), the
//! variables an expression names, and the `x?string.fmt` chains.
use vstd::prelude::*;
use crate::ast::{Expr, ExprKind, StrPart};
use crate::text::{push_str, strings_view};

verus! {

/// Description of an expression as it is written.
pub open spec fn desc(e: Expr) -> Seq<char>
    decreases e,
{
    match e.kind {
        ExprKind::Str(s) => "\""@ + s@ + "\""@,
        ExprKind::Num(n) => crate::number::plain_text(n),
        ExprKind::Bool(b) => if b {
            "true"@
        } else {
            "false"@
        },
        ExprKind::Ident(n) => n@,
        ExprKind::Dot { target, name } => desc(*target) + "."@ + name@,
        ExprKind::DynKey { target, key } => desc(*target) + "["@ + desc(*key) + "]"@,
        ExprKind::Call { callee, args } => desc(*callee) + "("@ + desc_list(args@) + ")"@,
        ExprKind::Paren(i) => "("@ + desc(*i) + ")"@,
        ExprKind::Not(i) => "!"@ + desc(*i),
        ExprKind::UnaryMinus(i) => "-"@ + desc(*i),
        ExprKind::Add(a, b) => desc(*a) + " + "@ + desc(*b),
        ExprKind::Sub(a, b) => desc(*a) + " - "@ + desc(*b),
        ExprKind::Mul(a, b) => desc(*a) + " * "@ + desc(*b),
        ExprKind::Div(a, b) => desc(*a) + " / "@ + desc(*b),
        ExprKind::Mod(a, b) => desc(*a) + " % "@ + desc(*b),
        ExprKind::Eq(a, b) => desc(*a) + " == "@ + desc(*b),
        ExprKind::NotEq(a, b) => desc(*a) + " != "@ + desc(*b),
        ExprKind::Gt(a, b) => desc(*a) + " > "@ + desc(*b),
        ExprKind::Gte(a, b) => desc(*a) + " >= "@ + desc(*b),
        ExprKind::Lt(a, b) => desc(*a) + " < "@ + desc(*b),
        ExprKind::Lte(a, b) => desc(*a) + " <= "@ + desc(*b),
        ExprKind::And(a, b) => desc(*a) + " && "@ + desc(*b),
        ExprKind::Or(a, b) => desc(*a) + " || "@ + desc(*b),
        ExprKind::Default { target, .. } => desc(*target) + "!"@,
        ExprKind::Exists(t) => desc(*t) + "??"@,
        ExprKind::ListLit(items) => "["@ + desc_list(items@) + "]"@,
        ExprKind::BuiltIn { target, name, args } => match args {
            Some(a) => desc(*target) + "?"@ + name@ + "("@ + desc_list(a@) + ")"@,
            None => desc(*target) + "?"@ + name@,
        },
        _ => "..."@,
    }
}

/// Descriptions of expressions separated by `, `.
pub open spec fn desc_list(es: Seq<Expr>) -> Seq<char>
    decreases es,
{
    if es.len() == 0 {
        Seq::empty()
    } else if es.len() == 1 {
        desc(es[0])
    } else {
        desc_list(es.drop_last()) + ", "@ + desc(es.last())
    }
}

/// Description of an expression as it is written (for error messages).
pub fn expr_desc(e: &Expr) -> (r: String)
    ensures
        r@ == desc(*e),
    decreases e,
{
    match &e.kind {
        ExprKind::Str(s) => {
            let mut r = String::from_str("\"");
            push_str(&mut r, s.as_str());
            push_str(&mut r, "\"");
            r
        },
        ExprKind::Num(n) => n.to_plain_string(),
        ExprKind::Bool(b) => if *b {
            String::from_str("true")
        } else {
            String::from_str("false")
        },
        ExprKind::Ident(n) => n.clone(),
        ExprKind::Dot { target, name } => {
            let mut r = expr_desc(target);
            push_str(&mut r, ".");
            push_str(&mut r, name.as_str());
            r
        },
        ExprKind::DynKey { target, key } => {
            let mut r = expr_desc(target);
            push_str(&mut r, "[");
            let k = expr_desc(key);
            push_str(&mut r, k.as_str());
            push_str(&mut r, "]");
            r
        },
        ExprKind::Call { callee, args } => {
            let mut r = expr_desc(callee);
            push_str(&mut r, "(");
            let a = expr_desc_list(args);
            push_str(&mut r, a.as_str());
            push_str(&mut r, ")");
            r
        },
        ExprKind::Paren(i) => {
            let mut r = String::from_str("(");
            let d = expr_desc(i);
            push_str(&mut r, d.as_str());
            push_str(&mut r, ")");
            r
        },
        ExprKind::Not(i) => {
            let mut r = String::from_str("!");
            let d = expr_desc(i);
            push_str(&mut r, d.as_str());
            r
        },
        ExprKind::UnaryMinus(i) => {
            let mut r = String::from_str("-");
            let d = expr_desc(i);
            push_str(&mut r, d.as_str());
            r
        },
        ExprKind::Add(a, b) => {
            let mut r = expr_desc(a);
            push_str(&mut r, " + ");
            let d = expr_desc(b);
            push_str(&mut r, d.as_str());
            r
        },
        ExprKind::Sub(a, b) => {
            let mut r = expr_desc(a);
            push_str(&mut r, " - ");
            let d = expr_desc(b);
            push_str(&mut r, d.as_str());
            r
        },
        ExprKind::Mul(a, b) => {
            let mut r = expr_desc(a);
            push_str(&mut r, " * ");
            let d = expr_desc(b);
            push_str(&mut r, d.as_str());
            r
        },
        ExprKind::Div(a, b) => {
            let mut r = expr_desc(a);
            push_str(&mut r, " / ");
            let d = expr_desc(b);
            push_str(&mut r, d.as_str());
            r
        },
        ExprKind::Mod(a, b) => {
            let mut r = expr_desc(a);
            push_str(&mut r, " % ");
            let d = expr_desc(b);
            push_str(&mut r, d.as_str());
            r
        },
        ExprKind::Eq(a, b) => {
            let mut r = expr_desc(a);
            push_str(&mut r, " == ");
            let d = expr_desc(b);
            push_str(&mut r, d.as_str());
            r
        },
        ExprKind::NotEq(a, b) => {
            let mut r = expr_desc(a);
            push_str(&mut r, " != ");
            let d = expr_desc(b);
            push_str(&mut r, d.as_str());
            r
        },
        ExprKind::Gt(a, b) => {
            let mut r = expr_desc(a);
            push_str(&mut r, " > ");
            let d = expr_desc(b);
            push_str(&mut r, d.as_str());
            r
        },
        ExprKind::Gte(a, b) => {
            let mut r = expr_desc(a);
            push_str(&mut r, " >= ");
            let d = expr_desc(b);
            push_str(&mut r, d.as_str());
            r
        },
        ExprKind::Lt(a, b) => {
            let mut r = expr_desc(a);
            push_str(&mut r, " < ");
            let d = expr_desc(b);
            push_str(&mut r, d.as_str());
            r
        },
        ExprKind::Lte(a, b) => {
            let mut r = expr_desc(a);
            push_str(&mut r, " <= ");
            let d = expr_desc(b);
            push_str(&mut r, d.as_str());
            r
        },
        ExprKind::And(a, b) => {
            let mut r = expr_desc(a);
            push_str(&mut r, " && ");
            let d = expr_desc(b);
            push_str(&mut r, d.as_str());
            r
        },
        ExprKind::Or(a, b) => {
            let mut r = expr_desc(a);
            push_str(&mut r, " || ");
            let d = expr_desc(b);
            push_str(&mut r, d.as_str());
            r
        },
        ExprKind::Default { target, .. } => {
            let mut r = expr_desc(target);
            push_str(&mut r, "!");
            r
        },
        ExprKind::Exists(t) => {
            let mut r = expr_desc(t);
            push_str(&mut r, "??");
            r
        },
        ExprKind::ListLit(items) => {
            let mut r = String::from_str("[");
            let d = expr_desc_list(items);
            push_str(&mut r, d.as_str());
            push_str(&mut r, "]");
            r
        },
        ExprKind::BuiltIn { target, name, args } => {
            let mut r = expr_desc(target);
            push_str(&mut r, "?");
            push_str(&mut r, name.as_str());
            match args {
                Some(a) => {
                    push_str(&mut r, "(");
                    let d = expr_desc_list(a);
                    push_str(&mut r, d.as_str());
                    push_str(&mut r, ")");
                },
                None => {},
            }
            r
        },
        _ => String::from_str("..."),
    }
}

/// Descriptions of expressions separated by `, `.
fn expr_desc_list(es: &Vec<Expr>) -> (r: String)
    ensures
        r@ == desc_list(es@),
    decreases es,
{
    let mut r = String::new();
    let mut i: usize = 0;
    while i < es.len()
        invariant
            i <= es.len(),
            r@ == desc_list(es@.take(i as int)),
        decreases es.len() - i,
    {
        if i > 0 {
            push_str(&mut r, ", ");
        }
        let d = expr_desc(&es[i]);
        push_str(&mut r, d.as_str());
        proof {
            let t = es@.take(i as int + 1);
            assert(t.drop_last() =~= es@.take(i as int));
            assert(t.last() == es@[i as int]);
            if i == 0 {
                assert(r@ =~= desc(es@[0]));
            }
        }
        i += 1;
    }
    proof {
        assert(es@.take(es.len() as int) =~= es@);
    }
    r
}

/// The names of the variables an expression refers to, in order of
/// appearance (with repetitions).
pub open spec fn ident_names(e: Expr) -> Seq<Seq<char>>
    decreases e,
{
    match e.kind {
        ExprKind::Ident(n) => seq![n@],
        ExprKind::InterpStr(parts) => part_names(parts@),
        ExprKind::Dot { target, .. } => ident_names(*target),
        ExprKind::UnaryMinus(t) => ident_names(*t),
        ExprKind::Not(t) => ident_names(*t),
        ExprKind::Exists(t) => ident_names(*t),
        ExprKind::Paren(t) => ident_names(*t),
        ExprKind::DynKey { target, key } => ident_names(*target) + ident_names(*key),
        ExprKind::Default { target, default } => ident_names(*target) + match default {
            Some(d) => ident_names(*d),
            None => Seq::empty(),
        },
        ExprKind::Add(a, b) => ident_names(*a) + ident_names(*b),
        ExprKind::Sub(a, b) => ident_names(*a) + ident_names(*b),
        ExprKind::Mul(a, b) => ident_names(*a) + ident_names(*b),
        ExprKind::Div(a, b) => ident_names(*a) + ident_names(*b),
        ExprKind::Mod(a, b) => ident_names(*a) + ident_names(*b),
        ExprKind::Eq(a, b) => ident_names(*a) + ident_names(*b),
        ExprKind::NotEq(a, b) => ident_names(*a) + ident_names(*b),
        ExprKind::Gt(a, b) => ident_names(*a) + ident_names(*b),
        ExprKind::Gte(a, b) => ident_names(*a) + ident_names(*b),
        ExprKind::Lt(a, b) => ident_names(*a) + ident_names(*b),
        ExprKind::Lte(a, b) => ident_names(*a) + ident_names(*b),
        ExprKind::And(a, b) => ident_names(*a) + ident_names(*b),
        ExprKind::Or(a, b) => ident_names(*a) + ident_names(*b),
        ExprKind::Range { start, end, .. } => ident_names(*start) + match end {
            Some(x) => ident_names(*x),
            None => Seq::empty(),
        },
        ExprKind::BuiltIn { target, args, .. } => ident_names(*target) + match args {
            Some(a) => list_names(a@),
            None => Seq::empty(),
        },
        ExprKind::Call { callee, args } => ident_names(*callee) + list_names(args@),
        ExprKind::ListLit(items) => list_names(items@),
        ExprKind::HashLit(pairs) => pair_names(pairs@),
        ExprKind::Lambda { body, .. } => ident_names(*body),
        _ => Seq::empty(),
    }
}

/// The variable names of a list of expressions, in order.
pub open spec fn list_names(es: Seq<Expr>) -> Seq<Seq<char>>
    decreases es,
{
    if es.len() == 0 {
        Seq::empty()
    } else {
        list_names(es.drop_last()) + ident_names(es.last())
    }
}

/// The variable names of the interpolations of a string literal, in order.
pub open spec fn part_names(ps: Seq<StrPart>) -> Seq<Seq<char>>
    decreases ps,
{
    if ps.len() == 0 {
        Seq::empty()
    } else {
        part_names(ps.drop_last()) + match ps.last() {
            StrPart::Interp(inner) => ident_names(*inner),
            StrPart::Text(_) => Seq::empty(),
        }
    }
}

/// The variable names of the keys and values of a hash literal, in order.
pub open spec fn pair_names(ps: Seq<(Expr, Expr)>) -> Seq<Seq<char>>
    decreases ps,
{
    if ps.len() == 0 {
        Seq::empty()
    } else {
        pair_names(ps.drop_last()) + ident_names(ps.last().0) + ident_names(ps.last().1)
    }
}

/// Appends the names of the variables `e` refers to.
fn collect_ident_names_into(e: &Expr, out: &mut Vec<String>)
    ensures
        strings_view(final(out)@) == strings_view(old(out)@) + ident_names(*e),
    decreases e,
{
    let ghost start = strings_view(out@);
    match &e.kind {
        ExprKind::Ident(n) => {
            let c = n.clone();
            proof {
                assert(strings_view(out@.push(c)) =~= strings_view(out@) + seq![n@]);
            }
            out.push(c);
        },
        ExprKind::InterpStr(parts) => collect_parts(parts, out),
        ExprKind::Dot { target, .. } => collect_ident_names_into(target, out),
        ExprKind::UnaryMinus(t) => collect_ident_names_into(t, out),
        ExprKind::Not(t) => collect_ident_names_into(t, out),
        ExprKind::Exists(t) => collect_ident_names_into(t, out),
        ExprKind::Paren(t) => collect_ident_names_into(t, out),
        ExprKind::DynKey { target, key } => {
            collect_ident_names_into(target, out);
            collect_ident_names_into(key, out);
        },
        ExprKind::Default { target, default } => {
            collect_ident_names_into(target, out);
            match default {
                Some(d) => collect_ident_names_into(d, out),
                None => {},
            }
        },
        ExprKind::Add(a, b) => {
            collect_ident_names_into(a, out);
            collect_ident_names_into(b, out);
        },
        ExprKind::Sub(a, b) => {
            collect_ident_names_into(a, out);
            collect_ident_names_into(b, out);
        },
        ExprKind::Mul(a, b) => {
            collect_ident_names_into(a, out);
            collect_ident_names_into(b, out);
        },
        ExprKind::Div(a, b) => {
            collect_ident_names_into(a, out);
            collect_ident_names_into(b, out);
        },
        ExprKind::Mod(a, b) => {
            collect_ident_names_into(a, out);
            collect_ident_names_into(b, out);
        },
        ExprKind::Eq(a, b) => {
            collect_ident_names_into(a, out);
            collect_ident_names_into(b, out);
        },
        ExprKind::NotEq(a, b) => {
            collect_ident_names_into(a, out);
            collect_ident_names_into(b, out);
        },
        ExprKind::Gt(a, b) => {
            collect_ident_names_into(a, out);
            collect_ident_names_into(b, out);
        },
        ExprKind::Gte(a, b) => {
            collect_ident_names_into(a, out);
            collect_ident_names_into(b, out);
        },
        ExprKind::Lt(a, b) => {
            collect_ident_names_into(a, out);
            collect_ident_names_into(b, out);
        },
        ExprKind::Lte(a, b) => {
            collect_ident_names_into(a, out);
            collect_ident_names_into(b, out);
        },
        ExprKind::And(a, b) => {
            collect_ident_names_into(a, out);
            collect_ident_names_into(b, out);
        },
        ExprKind::Or(a, b) => {
            collect_ident_names_into(a, out);
            collect_ident_names_into(b, out);
        },
        ExprKind::Range { start, end, .. } => {
            collect_ident_names_into(start, out);
            match end {
                Some(x) => collect_ident_names_into(x, out),
                None => {},
            }
        },
        ExprKind::BuiltIn { target, args, .. } => {
            collect_ident_names_into(target, out);
            match args {
                Some(a) => collect_list(a, out),
                None => {},
            }
        },
        ExprKind::Call { callee, args } => {
            collect_ident_names_into(callee, out);
            collect_list(args, out);
        },
        ExprKind::ListLit(items) => collect_list(items, out),
        ExprKind::HashLit(pairs) => collect_pairs(pairs, out),
        ExprKind::Lambda { body, .. } => collect_ident_names_into(body, out),
        _ => {},
    }
    proof {
        assert(strings_view(out@) =~= start + ident_names(*e));
    }
}

fn collect_list(es: &Vec<Expr>, out: &mut Vec<String>)
    ensures
        strings_view(final(out)@) == strings_view(old(out)@) + list_names(es@),
    decreases es,
{
    let ghost start = strings_view(out@);
    let mut i: usize = 0;
    proof {
        assert(es@.take(0) =~= Seq::<Expr>::empty());
        assert(strings_view(out@) =~= start + list_names(es@.take(0)));
    }
    while i < es.len()
        invariant
            i <= es.len(),
            strings_view(out@) == start + list_names(es@.take(i as int)),
        decreases es.len() - i,
    {
        collect_ident_names_into(&es[i], out);
        proof {
            assert(es@.take(i as int + 1).drop_last() =~= es@.take(i as int));
        }
        i += 1;
    }
    proof {
        assert(es@.take(es.len() as int) =~= es@);
    }
}

fn collect_parts(ps: &Vec<StrPart>, out: &mut Vec<String>)
    ensures
        strings_view(final(out)@) == strings_view(old(out)@) + part_names(ps@),
    decreases ps,
{
    let ghost start = strings_view(out@);
    let mut i: usize = 0;
    proof {
        assert(ps@.take(0) =~= Seq::<StrPart>::empty());
        assert(strings_view(out@) =~= start + part_names(ps@.take(0)));
    }
    while i < ps.len()
        invariant
            i <= ps.len(),
            strings_view(out@) == start + part_names(ps@.take(i as int)),
        decreases ps.len() - i,
    {
        match &ps[i] {
            StrPart::Interp(inner) => collect_ident_names_into(inner, out),
            StrPart::Text(_) => {
                proof {
                    assert(strings_view(out@) =~= strings_view(out@) + Seq::<Seq<char>>::empty());
                }
            },
        }
        proof {
            assert(ps@.take(i as int + 1).drop_last() =~= ps@.take(i as int));
        }
        i += 1;
    }
    proof {
        assert(ps@.take(ps.len() as int) =~= ps@);
    }
}

fn collect_pairs(ps: &Vec<(Expr, Expr)>, out: &mut Vec<String>)
    ensures
        strings_view(final(out)@) == strings_view(old(out)@) + pair_names(ps@),
    decreases ps,
{
    let ghost start = strings_view(out@);
    let mut i: usize = 0;
    proof {
        assert(ps@.take(0) =~= Seq::<(Expr, Expr)>::empty());
        assert(strings_view(out@) =~= start + pair_names(ps@.take(0)));
    }
    while i < ps.len()
        invariant
            i <= ps.len(),
            strings_view(out@) == start + pair_names(ps@.take(i as int)),
        decreases ps.len() - i,
    {
        collect_ident_names_into(&ps[i].0, out);
        collect_ident_names_into(&ps[i].1, out);
        proof {
            assert(ps@.take(i as int + 1).drop_last() =~= ps@.take(i as int));
        }
        i += 1;
    }
    proof {
        assert(ps@.take(ps.len() as int) =~= ps@);
    }
}

/// The names of the variables an expression refers to, in order of
/// appearance.
pub fn collect_ident_names(e: &Expr) -> (r: Vec<String>)
    ensures
        strings_view(r@) == ident_names(*e),
{
    let mut out: Vec<String> = Vec::new();
    proof {
        assert(strings_view(out@) =~= Seq::<Seq<char>>::empty());
    }
    collect_ident_names_into(e, &mut out);
    proof {
        assert(Seq::<Seq<char>>::empty() + ident_names(*e) =~= ident_names(*e));
    }
    out
}

/// Whether a built-in's name is one that turns a date or number into text
/// with a format given by name (`string`, `date`, `time`, `datetime`).
pub open spec fn is_format_builtin(name: Seq<char>) -> bool {
    name == "string"@ || name == "date"@ || name == "time"@ || name == "datetime"@
}

/// For `x?string.a.b` (or `?date`, `?time`, `?datetime` without arguments):
/// the target `x`, the built-in's name, and the names after it.
pub open spec fn builtin_chain(e: Expr) -> Option<(Expr, Seq<char>, Seq<Seq<char>>)>
    decreases e,
{
    match e.kind {
        ExprKind::BuiltIn { target, name, args } => if args is None && is_format_builtin(name@) {
            Some((*target, name@, Seq::empty()))
        } else {
            None
        },
        ExprKind::Dot { target, name } => match builtin_chain(*target) {
            Some((inner, b, names)) => Some((inner, b, names.push(name@))),
            None => None,
        },
        _ => None,
    }
}

/// For `x?string.a.b` (or `?date`, `?time`, `?datetime` without arguments):
/// the target `x`, the built-in's name, and the names after it.
pub fn dot_builtin_chain(e: &Expr) -> (r: Option<(&Expr, String, Vec<String>)>)
    ensures
        match builtin_chain(*e) {
            Some((inner, b, names)) => r matches Some((ri, rb, rn)) && *ri == inner && rb@ == b
                && strings_view(rn@) == names,
            None => r is None,
        },
    decreases e,
{
    match &e.kind {
        ExprKind::BuiltIn { target, name, args } => {
            let n = name.as_str();
            if args.is_none() && (crate::text::str_eq(n, "string") || crate::text::str_eq(n, "date")
                || crate::text::str_eq(n, "time") || crate::text::str_eq(n, "datetime")) {
                let v: Vec<String> = Vec::new();
                proof {
                    assert(strings_view(v@) =~= Seq::<Seq<char>>::empty());
                }
                Some((&**target, name.clone(), v))
            } else {
                None
            }
        },
        ExprKind::Dot { target, name } => match dot_builtin_chain(target) {
            Some((inner, b, names)) => {
                let mut names = names;
                let c = name.clone();
                proof {
                    assert(strings_view(names@.push(c)) =~= strings_view(names@).push(name@));
                }
                names.push(c);
                Some((inner, b, names))
            },
            None => None,
        },
        _ => None,
    }
}

} // verus!
