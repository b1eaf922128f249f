//! Binding the arguments of a macro or function call to its parameters:
//! values bound in advance with `?with_args` / `?with_args_last`, positional
//! and named arguments, the catch-all parameter, default values (which may
//! refer to each other), and the `.args` special variable.
use vstd::prelude::*;
use crate::ast::Expr;
use crate::error::TemplateError;
use crate::text::{push_str, str_eq};
use crate::value::{entry_vals, lemma_entry_vals_index, lemma_entry_vals_len, TModel, Val};

verus! {

/// A parameter of a macro or function: its name, its default value
/// expression, and whether it is the catch-all parameter (`name...`).
pub struct MacroParam {
    pub name: String,
    pub default: Option<Expr>,
    pub catch_all: bool,
}

/// What the binding of arguments needs to know of a macro or function
/// definition.
pub struct MacroDef {
    pub name: String,
    pub is_function: bool,
    pub params: Vec<MacroParam>,
}

/// Arguments bound in advance: by name, in insertion order, or by position.
pub enum WithArgsKind {
    ByName(Vec<(String, TModel)>),
    ByPosition(Vec<TModel>),
}

/// Arguments bound in advance, and whether they go after those of the call
/// (`?with_args_last`).
pub struct WithArgs {
    pub kind: WithArgsKind,
    pub order_last: bool,
}

/// Whether an entry list has an entry with key `k`.
pub open spec fn has_key(l: Seq<(Seq<char>, Val)>, k: Seq<char>) -> bool {
    exists|i: int| 0 <= i < l.len() && #[trigger] l[i].0 == k
}

/// An entry list with `k` set to `v`: the entries with that key get the new
/// value in place, else the entry is appended.
pub open spec fn put(l: Seq<(Seq<char>, Val)>, k: Seq<char>, v: Val) -> Seq<(Seq<char>, Val)> {
    if has_key(l, k) {
        Seq::new(l.len(), |i: int| if l[i].0 == k { (k, v) } else { l[i] })
    } else {
        l.push((k, v))
    }
}

/// Sets `k` to `v` in an entry list.
pub fn put_entry(l: &mut Vec<(String, TModel)>, k: &String, v: TModel)
    ensures
        entry_vals(final(l)@) == put(entry_vals(old(l)@), k@, v@),
{
    let ghost ev0 = entry_vals(l@);
    proof {
        lemma_entry_vals_len(l@);
    }
    let mut found = false;
    let mut i: usize = 0;
    while i < l.len()
        invariant
            ev0.len() == l@.len(),
            i <= l@.len(),
            forall|j: int| 0 <= j < i ==> #[trigger] entry_vals(l@)[j] == (if ev0[j].0 == k@ {
                (k@, v@)
            } else {
                ev0[j]
            }),
            forall|j: int| i <= j < l@.len() ==> #[trigger] entry_vals(l@)[j] == ev0[j],
            entry_vals(l@).len() == l@.len(),
            found == (exists|j: int| 0 <= j < i && #[trigger] ev0[j].0 == k@),
        decreases l.len() - i,
    {
        proof {
            lemma_entry_vals_index(l@, i as int);
            assert(entry_vals(l@)[i as int] == ev0[i as int]);
        }
        if str_eq(l[i].0.as_str(), k.as_str()) {
            assert(ev0[i as int].0 == k@);
            let ghost before = l@;
            l.set(i, (k.clone(), v.copy_model()));
            proof {
                lemma_entry_vals_len(l@);
                assert forall|j: int| 0 <= j < l@.len() implies #[trigger] entry_vals(l@)[j] == (if j
                    == i {
                    (k@, v@)
                } else {
                    entry_vals(before)[j]
                }) by {
                    lemma_entry_vals_index(l@, j);
                    lemma_entry_vals_index(before, j);
                }
            }
            found = true;
        } else {
            assert(ev0[i as int].0 != k@);
        }
        i += 1;
    }
    if !found {
        proof {
            assert(!has_key(ev0, k@));
            assert(entry_vals(l@) =~= ev0);
        }
        let ghost before = l@;
        let kc = k.clone();
        l.push((kc, v));
        proof {
            crate::value::lemma_entry_vals_push(before, l@.last());
            assert(l@ =~= before.push(l@.last()));
        }
    } else {
        proof {
            assert(has_key(ev0, k@));
            assert(entry_vals(l@) =~= put(ev0, k@, v@));
        }
    }
}


/// The names of the ordinary (not catch-all) parameters, in order.
pub open spec fn normal_names(ps: Seq<MacroParam>) -> Seq<Seq<char>>
    decreases ps.len(),
{
    if ps.len() == 0 {
        Seq::empty()
    } else if ps.last().catch_all {
        normal_names(ps.drop_last())
    } else {
        normal_names(ps.drop_last()).push(ps.last().name@)
    }
}

/// The name of the first catch-all parameter.
pub open spec fn catch_all_name(ps: Seq<MacroParam>) -> Option<Seq<char>>
    decreases ps.len(),
{
    if ps.len() == 0 {
        None
    } else if ps[0].catch_all {
        Some(ps[0].name@)
    } else {
        catch_all_name(ps.skip(1))
    }
}

/// "Macro" or "Function" in messages.
pub open spec fn kind_word(is_function: bool) -> Seq<char> {
    if is_function {
        "Function"@
    } else {
        "Macro"@
    }
}

/// A name in double quotes.
pub open spec fn quoted(s: Seq<char>) -> Seq<char> {
    "\""@ + s + "\""@
}

/// Message of a call with more positional arguments than parameters.
pub open spec fn too_many_msg(is_function: bool, name: Seq<char>, n: nat, cnt: nat) -> Seq<char> {
    kind_word(is_function) + " "@ + quoted(name) + " only accepts "@ + crate::text::decimal(n)
        + " parameters, but got "@ + crate::text::decimal(cnt) + "."@
}

/// Message of a call whose catch-all would get named and positional
/// arguments.
pub open spec fn both_msg(is_function: bool, name: Seq<char>) -> Seq<char> {
    kind_word(is_function) + " "@ + quoted(name)
        + " call can't have both named and positional arguments that has to go into catch-all parameter."@
}

/// Message of a named argument that matches no parameter.
pub open spec fn undeclared_msg(is_function: bool, name: Seq<char>, names: Seq<Seq<char>>, arg: Seq<char>) -> Seq<char> {
    kind_word(is_function) + " "@ + quoted(name) + " has no parameter with name "@ + quoted(arg)
        + ". Valid parameter names are: "@ + crate::text::join_with(names, ", "@)
}

/// Message of named call arguments together with positional arguments bound
/// last in advance.
pub open spec fn named_with_last_msg() -> Seq<char> {
    "Call can't pass parameters by name, as there's \"with args last\" in effect that specifies parameters by position."@
}

/// What binding reads of a definition: its kind and name, the names of its
/// ordinary parameters, and its catch-all parameter.
pub struct DefView {
    pub is_function: bool,
    pub name: Seq<char>,
    pub names: Seq<Seq<char>>,
    pub catch: Option<Seq<char>>,
}

impl MacroDef {
    /// What binding reads of the definition.
    pub open spec fn def_view(&self) -> DefView {
        DefView {
            is_function: self.is_function,
            name: self.name@,
            names: normal_names(self.params@),
            catch: catch_all_name(self.params@),
        }
    }
}

/// Arguments bound in advance, as values.
pub enum PreArgs {
    ByName(Seq<(Seq<char>, Val)>),
    ByPosition(Seq<Val>),
}

/// Arguments bound in advance, as values, and whether they go last.
pub open spec fn pre_args(w: Option<&WithArgs>) -> Option<(PreArgs, bool)> {
    match w {
        None => None,
        Some(wa) => Some(
            (
                match &wa.kind {
                    WithArgsKind::ByName(es) => PreArgs::ByName(entry_vals(es@)),
                    WithArgsKind::ByPosition(vs) => PreArgs::ByPosition(crate::value::vals(vs@)),
                },
                wa.order_last,
            ),
        ),
    }
}

/// The values bound in advance are well formed.
pub open spec fn pre_ok(w: Option<&WithArgs>) -> bool {
    match pre_args(w) {
        Some((PreArgs::ByName(es), _)) => all_vals_ok(es),
        Some((PreArgs::ByPosition(vs), _)) => forall|i: int| 0 <= i < vs.len() ==> crate::sequences::val_ok(#[trigger] vs[i]),
        None => true,
    }
}

/// The state of binding: the local variables so far, the next positional
/// parameter, the named and the positional catch-all collections once
/// started, and the by-name values bound last in advance.
pub struct Binding {
    pub locals: Seq<(Seq<char>, Val)>,
    pub next_pos: nat,
    pub named: Option<Seq<(Seq<char>, Val)>>,
    pub positional: Option<Seq<Val>>,
    pub pending: Option<Seq<(Seq<char>, Val)>>,
}

/// The entries of an optional collection, none when it has not started.
pub open spec fn entries_or_empty(o: Option<Seq<(Seq<char>, Val)>>) -> Seq<(Seq<char>, Val)> {
    match o {
        Some(s) => s,
        None => Seq::empty(),
    }
}

/// The items of an optional collection, none when it has not started.
pub open spec fn items_or_empty(o: Option<Seq<Val>>) -> Seq<Val> {
    match o {
        Some(s) => s,
        None => Seq::empty(),
    }
}

/// A value put in the next positional parameter, or else in the positional
/// catch-all; without a catch-all it is an error of `cnt` arguments.
pub open spec fn place_positional(d: DefView, b: Binding, v: Val, cnt: nat) -> Result<Binding, Seq<char>> {
    if b.next_pos < d.names.len() {
        Ok(Binding { locals: put(b.locals, d.names[b.next_pos as int], v), next_pos: b.next_pos + 1, ..b })
    } else {
        match d.catch {
            Some(cn) => {
                let ps = items_or_empty(b.positional).push(v);
                Ok(Binding { locals: put(b.locals, cn, Val::Sequence(ps)), positional: Some(ps), ..b })
            },
            None => Err(too_many_msg(d.is_function, d.name, d.names.len(), cnt)),
        }
    }
}

/// The first `n` values bound in advance by position, put in place.
pub open spec fn place_all(d: DefView, b: Binding, vs: Seq<Val>, n: nat) -> Result<Binding, Seq<char>>
    decreases n,
{
    if n == 0 || n > vs.len() {
        Ok(b)
    } else {
        match place_all(d, b, vs, (n - 1) as nat) {
            Err(m) => Err(m),
            Ok(b1) => place_positional(d, b1, vs[n - 1], vs.len()),
        }
    }
}

/// A value bound in advance by name: an ordinary parameter gets it; else it
/// goes into the named catch-all (after the call's own arguments, when bound
/// last).
pub open spec fn pre_by_name_step(d: DefView, b: Binding, k: Seq<char>, v: Val, last: bool) -> Result<Binding, Seq<char>> {
    if d.names.contains(k) {
        Ok(Binding { locals: put(b.locals, k, v), ..b })
    } else {
        match d.catch {
            Some(cn) => {
                let named0 = entries_or_empty(b.named);
                if last {
                    Ok(Binding { named: Some(named0), pending: Some(entries_or_empty(b.pending).push((k, v))), ..b })
                } else {
                    let nh = put(named0, k, v);
                    Ok(Binding { locals: put(b.locals, cn, Val::Hash(nh)), named: Some(nh), ..b })
                }
            },
            None => Err(undeclared_msg(d.is_function, d.name, d.names, k)),
        }
    }
}

/// The first `n` values bound in advance by name.
pub open spec fn pre_by_name(d: DefView, b: Binding, es: Seq<(Seq<char>, Val)>, last: bool, n: nat) -> Result<Binding, Seq<char>>
    decreases n,
{
    if n == 0 || n > es.len() {
        Ok(b)
    } else {
        match pre_by_name(d, b, es, last, (n - 1) as nat) {
            Err(m) => Err(m),
            Ok(b1) => pre_by_name_step(d, b1, es[n - 1].0, es[n - 1].1, last),
        }
    }
}

/// The empty binding state.
pub open spec fn start() -> Binding {
    Binding { locals: Seq::empty(), next_pos: 0, named: None, positional: None, pending: None }
}

/// Whether the catch-all collects by position: when the call has positional
/// arguments, or has no arguments and the values bound in advance are by
/// position.
pub open spec fn by_position(has_positional: bool, has_named: bool, pre: Option<(PreArgs, bool)>) -> bool {
    has_positional || (!has_named && (pre matches Some((PreArgs::ByPosition(_), _))))
}

/// Binding of the values bound in advance (before the call's arguments).
pub open spec fn bind_pre(d: DefView, pre: Option<(PreArgs, bool)>, has_named: bool, call_positional: nat) -> Result<Binding, Seq<char>> {
    match pre {
        None => Ok(start()),
        Some((PreArgs::ByName(es), last)) => pre_by_name(d, start(), es, last, es.len()),
        Some((PreArgs::ByPosition(vs), last)) => if last {
            if has_named && vs.len() > 0 {
                Err(named_with_last_msg())
            } else if d.catch is None && call_positional + vs.len() > d.names.len() {
                Err(too_many_msg(d.is_function, d.name, d.names.len(), call_positional + vs.len()))
            } else {
                Ok(start())
            }
        } else if d.names.len() < vs.len() && d.catch is None {
            Err(too_many_msg(d.is_function, d.name, d.names.len(), vs.len()))
        } else {
            place_all(d, start(), vs, vs.len())
        },
    }
}

/// The catch-all collection started before the call's arguments are bound,
/// and the check that the positional arguments fit.
pub open spec fn before_call(d: DefView, b: Binding, by_pos: bool, call_positional: nat) -> Result<Binding, Seq<char>> {
    let b1 = if d.catch is Some && b.positional is None && b.named is None {
        if by_pos {
            Binding { positional: Some(Seq::empty()), ..b }
        } else {
            Binding { named: Some(Seq::empty()), ..b }
        }
    } else {
        b
    };
    if b1.positional is None && d.names.len() < call_positional + b1.next_pos {
        if b1.named is Some {
            Err(both_msg(d.is_function, d.name))
        } else {
            Err(too_many_msg(d.is_function, d.name, d.names.len(), call_positional + b1.next_pos))
        }
    } else {
        Ok(b1)
    }
}

/// One argument of the call, with its value, bound: a null in the classic
/// mode leaves its parameter unset (a positional one still takes its slot);
/// a positional value goes to the next parameter or the catch-all; a named
/// value to its parameter or the named catch-all.
pub open spec fn call_arg_step(d: DefView, b: Binding, name: Seq<char>, v: Val, classic: bool, call_positional: nat) -> Result<Binding, Seq<char>> {
    if v is Nothing && classic {
        if name.len() == 0 {
            Ok(Binding { next_pos: b.next_pos + 1, ..b })
        } else {
            Ok(b)
        }
    } else if name.len() == 0 {
        place_positional(d, b, v, call_positional + b.next_pos)
    } else if d.names.contains(name) {
        Ok(Binding { locals: put(b.locals, name, v), ..b })
    } else {
        match d.catch {
            Some(cn) => if b.positional is Some {
                Err(both_msg(d.is_function, d.name))
            } else {
                let nh = put(entries_or_empty(b.named), name, v);
                Ok(Binding { locals: put(b.locals, cn, Val::Hash(nh)), named: Some(nh), ..b })
            },
            None => Err(undeclared_msg(d.is_function, d.name, d.names, name)),
        }
    }
}

/// The first `n` arguments of the call evaluated (a missing value is null)
/// and bound.
pub open spec fn bind_call(
    vars: Seq<(Seq<char>, Val)>,
    classic: bool,
    d: DefView,
    b: Binding,
    args: Seq<(String, Expr)>,
    call_positional: nat,
    n: nat,
) -> Result<Binding, crate::eval::Fail>
    decreases n,
{
    if n == 0 || n > args.len() {
        Ok(b)
    } else {
        match bind_call(vars, classic, d, b, args, call_positional, (n - 1) as nat) {
            Err(f) => Err(f),
            Ok(b1) => match crate::eval::arg_lenient(vars, classic, args[n - 1].1) {
                Err(f) => Err(f),
                Ok(v) => crate::eval::msg_result(call_arg_step(d, b1, args[n - 1].0@, v, classic, call_positional)),
            },
        }
    }
}

/// The first `n` by-name values bound last in advance, added to the named
/// catch-all where it has no such key yet.
pub open spec fn merge_pending(named: Option<Seq<(Seq<char>, Val)>>, es: Seq<(Seq<char>, Val)>, n: nat) -> Option<Seq<(Seq<char>, Val)>>
    decreases n,
{
    if n == 0 || n > es.len() {
        named
    } else {
        let m = merge_pending(named, es, (n - 1) as nat);
        if m matches Some(h) && has_key(h, es[n - 1].0) {
            m
        } else {
            Some(put(entries_or_empty(m), es[n - 1].0, es[n - 1].1))
        }
    }
}

/// The values bound last in advance, put in place after the call's own.
pub open spec fn bind_last(d: DefView, b: Binding, pre: Option<(PreArgs, bool)>) -> Result<Binding, Seq<char>> {
    match pre {
        Some((kind, true)) => match b.pending {
            Some(es) => {
                let nm = merge_pending(b.named, es, es.len());
                match (d.catch, nm) {
                    (Some(cn), Some(h)) => Ok(Binding { locals: put(b.locals, cn, Val::Hash(h)), named: nm, ..b }),
                    _ => Ok(Binding { named: nm, ..b }),
                }
            },
            None => match kind {
                PreArgs::ByPosition(vs) => place_all(d, b, vs, vs.len()),
                PreArgs::ByName(_) => Ok(b),
            },
        },
        _ => Ok(b),
    }
}

/// The catch-all parameter bound to an empty collection when it got
/// nothing.
pub open spec fn fill_catch_all(d: DefView, locals: Seq<(Seq<char>, Val)>, by_pos: bool) -> Seq<(Seq<char>, Val)> {
    match d.catch {
        Some(cn) => if has_key(locals, cn) {
            locals
        } else {
            put(locals, cn, if by_pos { Val::Sequence(Seq::empty()) } else { Val::Hash(Seq::empty()) })
        },
        None => locals,
    }
}

/// The number of positional arguments of a call (those without a name).
pub open spec fn positional_count(args: Seq<(String, Expr)>) -> nat
    decreases args.len(),
{
    if args.len() == 0 {
        0
    } else {
        positional_count(args.drop_last()) + if args.last().0@.len() == 0 { 1nat } else { 0nat }
    }
}

/// Whether a call has a named argument.
pub open spec fn has_named_arg(args: Seq<(String, Expr)>) -> bool {
    exists|i: int| 0 <= i < args.len() && (#[trigger] args[i]).0@.len() > 0
}

/// The local variables of a macro or function call after its arguments are
/// bound: values bound in advance, then the call's arguments in order, then
/// those bound last in advance, then an empty catch-all.
pub open spec fn bind_result(
    vars: Seq<(Seq<char>, Val)>,
    classic: bool,
    d: DefView,
    args: Seq<(String, Expr)>,
    pre: Option<(PreArgs, bool)>,
) -> Result<Seq<(Seq<char>, Val)>, crate::eval::Fail> {
    let cp = positional_count(args);
    let hn = has_named_arg(args);
    let bp = by_position(cp > 0, hn, pre);
    match bind_pre(d, pre, hn, cp) {
        Err(m) => Err(crate::eval::Fail::Msg(m)),
        Ok(b0) => match before_call(d, b0, bp, cp) {
            Err(m) => Err(crate::eval::Fail::Msg(m)),
            Ok(b1) => match bind_call(vars, classic, d, b1, args, cp, args.len()) {
                Err(f) => Err(f),
                Ok(b2) => match bind_last(d, b2, pre) {
                    Err(m) => Err(crate::eval::Fail::Msg(m)),
                    Ok(b3) => Ok(fill_catch_all(d, b3.locals, bp)),
                },
            },
        },
    }
}

} // verus!

verus! {

/// The entries of an optional list of entries.
pub open spec fn opt_entries(o: Option<Vec<(String, TModel)>>) -> Option<Seq<(Seq<char>, Val)>> {
    match o {
        Some(v) => Some(entry_vals(v@)),
        None => None,
    }
}

/// The values of an optional list of values.
pub open spec fn opt_items(o: Option<Vec<TModel>>) -> Option<Seq<Val>> {
    match o {
        Some(v) => Some(crate::value::vals(v@)),
        None => None,
    }
}

/// The text of an optional string.
pub open spec fn opt_text(o: Option<String>) -> Option<Seq<char>> {
    match o {
        Some(s) => Some(s@),
        None => None,
    }
}

/// The state of binding while it runs.
struct BindState {
    locals: Vec<(String, TModel)>,
    next_pos: u128,
    named: Option<Vec<(String, TModel)>>,
    positional: Option<Vec<TModel>>,
    pending: Option<Vec<(String, TModel)>>,
}

impl BindState {
    /// The state as values.
    spec fn view_b(&self) -> Binding {
        Binding {
            locals: entry_vals(self.locals@),
            next_pos: self.next_pos as nat,
            named: opt_entries(self.named),
            positional: opt_items(self.positional),
            pending: opt_entries(self.pending),
        }
    }
}

/// The parameter names and catch-all of a definition, as read from it.
spec fn info_ok(def: &MacroDef, names: &Vec<String>, catch: &Option<String>) -> bool {
    &&& crate::text::strings_view(names@) == def.def_view().names
    &&& opt_text(*catch) == def.def_view().catch
}

/// The names of the ordinary parameters.
fn normal_params(def: &MacroDef) -> (r: Vec<String>)
    ensures
        crate::text::strings_view(r@) == normal_names(def.params@),
{
    let mut r: Vec<String> = Vec::new();
    let mut i: usize = 0;
    assert(def.params@.take(0) =~= Seq::<MacroParam>::empty());
    assert(crate::text::strings_view(r@) =~= Seq::<Seq<char>>::empty());
    while i < def.params.len()
        invariant
            i <= def.params@.len(),
            crate::text::strings_view(r@) == normal_names(def.params@.take(i as int)),
        decreases def.params.len() - i,
    {
        assert(def.params@.take(i as int + 1).drop_last() =~= def.params@.take(i as int));
        if !def.params[i].catch_all {
            let ghost before = r@;
            r.push(def.params[i].name.clone());
            assert(crate::text::strings_view(r@) =~= crate::text::strings_view(before).push(
                def.params@[i as int].name@,
            ));
        }
        i += 1;
    }
    assert(def.params@.take(i as int) =~= def.params@);
    r
}

/// The name of the catch-all parameter.
fn catch_all_param(def: &MacroDef) -> (r: Option<String>)
    ensures
        opt_text(r) == catch_all_name(def.params@),
{
    let mut i: usize = 0;
    assert(def.params@.skip(0) =~= def.params@);
    while i < def.params.len()
        invariant
            i <= def.params@.len(),
            catch_all_name(def.params@) == catch_all_name(def.params@.skip(i as int)),
        decreases def.params.len() - i,
    {
        assert(def.params@.skip(i as int)[0] == def.params@[i as int]);
        assert(def.params@.skip(i as int).skip(1) =~= def.params@.skip(i as int + 1));
        if def.params[i].catch_all {
            return Some(def.params[i].name.clone());
        }
        i += 1;
    }
    None
}

/// Whether a name is among the given names.
fn name_listed(names: &Vec<String>, k: &String) -> (b: bool)
    ensures
        b == crate::text::strings_view(names@).contains(k@),
{
    let mut i: usize = 0;
    while i < names.len()
        invariant
            i <= names@.len(),
            forall|j: int| 0 <= j < i ==> names@[j]@ != k@,
        decreases names.len() - i,
    {
        if str_eq(names[i].as_str(), k.as_str()) {
            assert(crate::text::strings_view(names@)[i as int] == k@);
            return true;
        }
        i += 1;
    }
    assert forall|j: int| 0 <= j < names@.len() implies crate::text::strings_view(names@)[j] != k@ by {}
    false
}

/// "Macro" or "Function", then the quoted name.
fn def_label(def: &MacroDef) -> (r: String)
    ensures
        r@ == kind_word(def.is_function) + " "@ + quoted(def.name@),
{
    let mut r = if def.is_function {
        String::from_str("Function")
    } else {
        String::from_str("Macro")
    };
    push_str(&mut r, " ");
    let q = crate::settings::quote_name(def.name.as_str());
    push_str(&mut r, q.as_str());
    proof {
        assert(r@ =~= kind_word(def.is_function) + " "@ + quoted(def.name@));
    }
    r
}

fn too_many_error(def: &MacroDef, n: usize, cnt: u128) -> (e: TemplateError)
    ensures
        crate::error::is_misc(e, too_many_msg(def.is_function, def.name@, n as nat, cnt as nat)),
{
    let mut m = def_label(def);
    push_str(&mut m, " only accepts ");
    let t = crate::text::usize_text(n);
    push_str(&mut m, t.as_str());
    push_str(&mut m, " parameters, but got ");
    let c = crate::text::u128_text(cnt);
    push_str(&mut m, c.as_str());
    push_str(&mut m, ".");
    proof {
        assert(m@ =~= too_many_msg(def.is_function, def.name@, n as nat, cnt as nat));
    }
    TemplateError::misc(m)
}

fn both_error(def: &MacroDef) -> (e: TemplateError)
    ensures
        crate::error::is_misc(e, both_msg(def.is_function, def.name@)),
{
    let mut m = def_label(def);
    push_str(
        &mut m,
        " call can't have both named and positional arguments that has to go into catch-all parameter.",
    );
    proof {
        assert(m@ =~= both_msg(def.is_function, def.name@));
    }
    TemplateError::misc(m)
}

fn undeclared_error(def: &MacroDef, names: &Vec<String>, arg: &String) -> (e: TemplateError)
    ensures
        crate::error::is_misc(
            e,
            undeclared_msg(def.is_function, def.name@, crate::text::strings_view(names@), arg@),
        ),
{
    let mut m = def_label(def);
    push_str(&mut m, " has no parameter with name ");
    let q = crate::settings::quote_name(arg.as_str());
    push_str(&mut m, q.as_str());
    push_str(&mut m, ". Valid parameter names are: ");
    let j = crate::text::join_range(names, 0, names.len(), ", ");
    push_str(&mut m, j.as_str());
    proof {
        assert(crate::text::strings_view(names@).subrange(0, names@.len() as int) =~= crate::text::strings_view(
            names@,
        ));
        assert(m@ =~= undeclared_msg(
            def.is_function,
            def.name@,
            crate::text::strings_view(names@),
            arg@,
        ));
    }
    TemplateError::misc(m)
}

/// A positional value put in place.
fn place_positional_of(
    st: &mut BindState,
    def: &MacroDef,
    names: &Vec<String>,
    catch: &Option<String>,
    v: TModel,
    cnt: u128,
) -> (r: Result<(), TemplateError>)
    requires
        info_ok(def, names, catch),
        binding_ok(old(st).view_b()),
        crate::sequences::val_ok(v@),
    ensures
        r is Ok ==> binding_ok(final(st).view_b()),
        match place_positional(def.def_view(), old(st).view_b(), v@, cnt as nat) {
            Ok(b) => r is Ok && final(st).view_b() == b,
            Err(m) => r matches Err(e) && crate::error::is_misc(e, m),
        },
        old(st).next_pos <= names.len() ==> final(st).next_pos <= names.len(),
{
    proof {
        lemma_place_positional_ok(def.def_view(), st.view_b(), v@, cnt as nat);
    }
    if st.next_pos < names.len() as u128 {
        let k = &names[st.next_pos as usize];
        assert(crate::text::strings_view(names@)[st.next_pos as int] == k@);
        put_entry(&mut st.locals, k, v);
        st.next_pos = st.next_pos + 1;
        return Ok(());
    }
    match catch {
        Some(cn) => {
            let mut ps: Vec<TModel> = match &st.positional {
                Some(p) => crate::value::copy_items(p),
                None => Vec::new(),
            };
            let ghost before = ps@;
            ps.push(v);
            proof {
                crate::value::lemma_vals_push(before, v);
            }
            let seq = TModel::Sequence(crate::value::copy_items(&ps));
            put_entry(&mut st.locals, cn, seq);
            st.positional = Some(ps);
            Ok(())
        },
        None => Err(too_many_error(def, names.len(), cnt)),
    }
}

} // verus!

verus! {

/// The empty binding state.
fn start_state() -> (st: BindState)
    ensures
        st.view_b() == start(),
{
    let st = BindState { locals: Vec::new(), next_pos: 0, named: None, positional: None, pending: None };
    assert(entry_vals(st.locals@) =~= Seq::<(Seq<char>, Val)>::empty());
    st
}

/// The first `n` values bound in advance by position, put in place.
fn place_all_of(
    st: &mut BindState,
    def: &MacroDef,
    names: &Vec<String>,
    catch: &Option<String>,
    vs: &Vec<TModel>,
) -> (r: Result<(), TemplateError>)
    requires
        info_ok(def, names, catch),
        binding_ok(old(st).view_b()),
        forall|i: int| 0 <= i < vs@.len() ==> crate::sequences::val_ok(#[trigger] crate::value::vals(vs@)[i]),
    ensures
        r is Ok ==> binding_ok(final(st).view_b()),
        match place_all(def.def_view(), old(st).view_b(), crate::value::vals(vs@), vs@.len()) {
            Ok(b) => r is Ok && final(st).view_b() == b,
            Err(m) => r matches Err(e) && crate::error::is_misc(e, m),
        },
        r is Ok && old(st).next_pos <= names.len() ==> final(st).next_pos <= names.len(),
{
    let ghost d = def.def_view();
    let ghost b0 = st.view_b();
    let ghost vv = crate::value::vals(vs@);
    proof {
        crate::value::lemma_vals_len(vs@);
    }
    let mut i: usize = 0;
    while i < vs.len()
        invariant
            info_ok(def, names, catch),
            d == def.def_view(),
            vv == crate::value::vals(vs@),
            vv.len() == vs@.len(),
            i <= vs@.len(),
            place_all(d, b0, vv, i as nat) == Ok::<Binding, Seq<char>>(st.view_b()),
            b0.next_pos <= names.len() ==> st.next_pos <= names.len(),
            b0 == old(st).view_b(),
            binding_ok(st.view_b()),
            forall|j: int| 0 <= j < vs@.len() ==> crate::sequences::val_ok(#[trigger] vv[j]),
        decreases vs.len() - i,
    {
        proof {
            crate::value::lemma_vals_index(vs@, i as int);
        }
        let v = vs[i].copy_model();
        let ghost bi = st.view_b();
        match place_positional_of(st, def, names, catch, v, vs.len() as u128) {
            Ok(()) => {},
            Err(e) => {
                proof {
                    assert(place_all(d, b0, vv, (i + 1) as nat) == place_positional(d, bi, vv[i as int], vv.len()));
                    lemma_place_all_err(d, b0, vv, (i + 1) as nat, vv.len());
                }
                return Err(e);
            },
        }
        i += 1;
    }
    Ok(())
}

/// Once placing a prefix of the values failed, placing all fails with that
/// error.
pub proof fn lemma_place_all_err(d: DefView, b: Binding, vs: Seq<Val>, k: nat, n: nat)
    requires
        k <= n <= vs.len(),
        place_all(d, b, vs, k) is Err,
    ensures
        place_all(d, b, vs, n) == place_all(d, b, vs, k),
    decreases n,
{
    if n > k {
        lemma_place_all_err(d, b, vs, k, (n - 1) as nat);
    }
}

/// Once binding a prefix of the values bound in advance by name failed,
/// binding all fails with that error.
pub proof fn lemma_pre_by_name_err(d: DefView, b: Binding, es: Seq<(Seq<char>, Val)>, last: bool, k: nat, n: nat)
    requires
        k <= n <= es.len(),
        pre_by_name(d, b, es, last, k) is Err,
    ensures
        pre_by_name(d, b, es, last, n) == pre_by_name(d, b, es, last, k),
    decreases n,
{
    if n > k {
        lemma_pre_by_name_err(d, b, es, last, k, (n - 1) as nat);
    }
}

/// One value bound in advance by name.
fn pre_by_name_step_of(
    st: &mut BindState,
    def: &MacroDef,
    names: &Vec<String>,
    catch: &Option<String>,
    k: &String,
    v: TModel,
    last: bool,
) -> (r: Result<(), TemplateError>)
    requires
        info_ok(def, names, catch),
        binding_ok(old(st).view_b()),
        crate::sequences::val_ok(v@),
    ensures
        r is Ok ==> binding_ok(final(st).view_b()),
        match pre_by_name_step(def.def_view(), old(st).view_b(), k@, v@, last) {
            Ok(b) => r is Ok && final(st).view_b() == b,
            Err(m) => r matches Err(e) && crate::error::is_misc(e, m),
        },
        final(st).next_pos == old(st).next_pos,
{
    proof {
        lemma_pre_by_name_step_ok(def.def_view(), st.view_b(), k@, v@, last);
    }
    if name_listed(names, k) {
        put_entry(&mut st.locals, k, v);
        return Ok(());
    }
    match catch {
        Some(cn) => {
            let mut named0: Vec<(String, TModel)> = match &st.named {
                Some(h) => crate::value::copy_entries(h),
                None => Vec::new(),
            };
            proof {
                assert(entry_vals(Seq::<(String, TModel)>::empty()) =~= Seq::<(Seq<char>, Val)>::empty());
            }
            if last {
                let mut pend: Vec<(String, TModel)> = match &st.pending {
                    Some(p) => crate::value::copy_entries(p),
                    None => Vec::new(),
                };
                let ghost before = pend@;
                pend.push((k.clone(), v));
                proof {
                    crate::value::lemma_entry_vals_push(before, pend@.last());
                    assert(pend@ =~= before.push(pend@.last()));
                }
                st.named = Some(named0);
                st.pending = Some(pend);
            } else {
                put_entry(&mut named0, k, v);
                let h = TModel::Hash(crate::value::copy_entries(&named0));
                put_entry(&mut st.locals, cn, h);
                st.named = Some(named0);
            }
            Ok(())
        },
        None => Err(undeclared_error(def, names, k)),
    }
}

/// The values bound in advance, before the call's arguments.
fn bind_pre_of(
    def: &MacroDef,
    names: &Vec<String>,
    catch: &Option<String>,
    pre: Option<&WithArgs>,
    has_named: bool,
    call_positional: usize,
) -> (r: Result<BindState, TemplateError>)
    requires
        info_ok(def, names, catch),
        pre_ok(pre),
    ensures
        r matches Ok(st) ==> binding_ok(st.view_b()),
        match bind_pre(def.def_view(), pre_args(pre), has_named, call_positional as nat) {
            Ok(b) => r matches Ok(st) && st.view_b() == b,
            Err(m) => r matches Err(e) && crate::error::is_misc(e, m),
        },
        r matches Ok(st) ==> st.next_pos <= names.len(),
{
    let ghost d = def.def_view();
    let mut st = start_state();
    match pre {
        None => Ok(st),
        Some(wa) => match &wa.kind {
            WithArgsKind::ByName(es) => {
                let ghost ev = entry_vals(es@);
                proof {
                    lemma_entry_vals_len(es@);
                }
                let mut i: usize = 0;
                while i < es.len()
                    invariant
                        info_ok(def, names, catch),
                        d == def.def_view(),
                        ev == entry_vals(es@),
                        ev.len() == es@.len(),
                        i <= es@.len(),
                        pre_by_name(d, start(), ev, wa.order_last, i as nat) == Ok::<Binding, Seq<char>>(
                            st.view_b(),
                        ),
                        st.next_pos == 0,
                        pre_args(pre) == Some((PreArgs::ByName(ev), wa.order_last)),
                        binding_ok(st.view_b()),
                        all_vals_ok(ev),
                    decreases es.len() - i,
                {
                    proof {
                        lemma_entry_vals_index(es@, i as int);
                    }
                    let v = es[i].1.copy_model();
                    let ghost bi = st.view_b();
                    match pre_by_name_step_of(&mut st, def, names, catch, &es[i].0, v, wa.order_last) {
                        Ok(()) => {},
                        Err(e) => {
                            proof {
                                assert(pre_by_name(d, start(), ev, wa.order_last, (i + 1) as nat)
                                    == pre_by_name_step(d, bi, ev[i as int].0, ev[i as int].1, wa.order_last));
                                lemma_pre_by_name_err(d, start(), ev, wa.order_last, (i + 1) as nat, ev.len());
                            }
                            return Err(e);
                        },
                    }
                    i += 1;
                }
                Ok(st)
            },
            WithArgsKind::ByPosition(vs) => {
                proof {
                    crate::value::lemma_vals_len(vs@);
                }
                if wa.order_last {
                    if has_named && vs.len() > 0 {
                        return Err(TemplateError::misc(String::from_str(
                            "Call can't pass parameters by name, as there's \"with args last\" in effect that specifies parameters by position.",
                        )));
                    }
                    if catch.is_none() && (call_positional as u128) + (vs.len() as u128) > (names.len() as u128) {
                        return Err(too_many_error(def, names.len(), (call_positional as u128) + (vs.len() as u128)));
                    }
                    Ok(st)
                } else {
                    if names.len() < vs.len() && catch.is_none() {
                        return Err(too_many_error(def, names.len(), vs.len() as u128));
                    }
                    place_all_of(&mut st, def, names, catch, vs)?;
                    Ok(st)
                }
            },
        },
    }
}

/// The catch-all started and the positional arguments checked, before the
/// call's arguments are bound.
fn before_call_of(
    st: &mut BindState,
    def: &MacroDef,
    names: &Vec<String>,
    catch: &Option<String>,
    by_pos: bool,
    call_positional: usize,
) -> (r: Result<(), TemplateError>)
    requires
        info_ok(def, names, catch),
        old(st).next_pos <= names.len(),
        binding_ok(old(st).view_b()),
    ensures
        r is Ok ==> binding_ok(final(st).view_b()),
        match before_call(def.def_view(), old(st).view_b(), by_pos, call_positional as nat) {
            Ok(b) => r is Ok && final(st).view_b() == b,
            Err(m) => r matches Err(e) && crate::error::is_misc(e, m),
        },
{
    if catch.is_some() && st.positional.is_none() && st.named.is_none() {
        if by_pos {
            st.positional = Some(Vec::new());
            assert(crate::value::vals(Seq::<TModel>::empty()) =~= Seq::<Val>::empty());
        } else {
            st.named = Some(Vec::new());
            assert(entry_vals(Seq::<(String, TModel)>::empty()) =~= Seq::<(Seq<char>, Val)>::empty());
        }
    }
    if st.positional.is_none() && (names.len() as u128) < (call_positional as u128) + st.next_pos {
        if st.named.is_some() {
            return Err(both_error(def));
        }
        return Err(too_many_error(def, names.len(), (call_positional as u128) + st.next_pos));
    }
    Ok(())
}

} // verus!

verus! {

/// Whether a name is empty (a positional argument).
fn is_unnamed(s: &String) -> (b: bool)
    ensures
        b == (s@.len() == 0),
{
    let cs = crate::text::chars_of(s.as_str());
    cs.len() == 0
}

/// Whether an entry list has an entry with key `k`.
fn has_entry(l: &Vec<(String, TModel)>, k: &String) -> (b: bool)
    ensures
        b == has_key(entry_vals(l@), k@),
{
    proof {
        lemma_entry_vals_len(l@);
    }
    let mut i: usize = 0;
    while i < l.len()
        invariant
            i <= l@.len(),
            entry_vals(l@).len() == l@.len(),
            forall|j: int| 0 <= j < i ==> (#[trigger] entry_vals(l@)[j]).0 != k@,
        decreases l.len() - i,
    {
        proof {
            lemma_entry_vals_index(l@, i as int);
        }
        if str_eq(l[i].0.as_str(), k.as_str()) {
            assert(entry_vals(l@)[i as int].0 == k@);
            return true;
        }
        i += 1;
    }
    false
}

/// One argument of the call bound, with its value.
fn call_arg_step_of(
    st: &mut BindState,
    def: &MacroDef,
    names: &Vec<String>,
    catch: &Option<String>,
    name: &String,
    v: TModel,
    classic: bool,
    call_positional: usize,
) -> (r: Result<(), TemplateError>)
    requires
        info_ok(def, names, catch),
        old(st).next_pos < u128::MAX - usize::MAX,
        binding_ok(old(st).view_b()),
        crate::sequences::val_ok(v@),
    ensures
        r is Ok ==> binding_ok(final(st).view_b()),
        match call_arg_step(def.def_view(), old(st).view_b(), name@, v@, classic, call_positional as nat) {
            Ok(b) => r is Ok && final(st).view_b() == b,
            Err(m) => r matches Err(e) && crate::error::is_misc(e, m),
        },
        r is Ok ==> final(st).next_pos <= old(st).next_pos + 1,
{
    proof {
        lemma_call_arg_step_ok(def.def_view(), st.view_b(), name@, v@, classic, call_positional as nat);
    }
    let unnamed = is_unnamed(name);
    if v.is_nothing() && classic {
        if unnamed {
            st.next_pos = st.next_pos + 1;
        }
        return Ok(());
    }
    if unnamed {
        let cnt = (call_positional as u128) + st.next_pos;
        return place_positional_of(st, def, names, catch, v, cnt);
    }
    if name_listed(names, name) {
        put_entry(&mut st.locals, name, v);
        return Ok(());
    }
    match catch {
        Some(cn) => {
            if st.positional.is_some() {
                return Err(both_error(def));
            }
            let mut nh: Vec<(String, TModel)> = match &st.named {
                Some(h) => crate::value::copy_entries(h),
                None => Vec::new(),
            };
            proof {
                assert(entry_vals(Seq::<(String, TModel)>::empty()) =~= Seq::<(Seq<char>, Val)>::empty());
            }
            put_entry(&mut nh, name, v);
            let h = TModel::Hash(crate::value::copy_entries(&nh));
            put_entry(&mut st.locals, cn, h);
            st.named = Some(nh);
            Ok(())
        },
        None => Err(undeclared_error(def, names, name)),
    }
}

/// Once binding a prefix of the call's arguments failed, binding all fails
/// with that error.
pub proof fn lemma_bind_call_err(
    vars: Seq<(Seq<char>, Val)>,
    classic: bool,
    d: DefView,
    b: Binding,
    args: Seq<(String, Expr)>,
    cp: nat,
    k: nat,
    n: nat,
)
    requires
        k <= n <= args.len(),
        bind_call(vars, classic, d, b, args, cp, k) is Err,
    ensures
        bind_call(vars, classic, d, b, args, cp, n) == bind_call(vars, classic, d, b, args, cp, k),
    decreases n,
{
    if n > k {
        lemma_bind_call_err(vars, classic, d, b, args, cp, k, (n - 1) as nat);
    }
}

/// The arguments of the call evaluated and bound, in order.
fn bind_call_of(
    env: &crate::eval::Env,
    st: &mut BindState,
    def: &MacroDef,
    names: &Vec<String>,
    catch: &Option<String>,
    args: &Vec<(String, Expr)>,
    call_positional: usize,
) -> (r: Result<(), TemplateError>)
    requires
        env.wf(),
        forall|i: int| 0 <= i < args@.len() ==> crate::eval::evaluable(#[trigger] args@[i].1),
        info_ok(def, names, catch),
        old(st).next_pos <= names.len(),
        binding_ok(old(st).view_b()),
    ensures
        r is Ok ==> binding_ok(final(st).view_b()),
        match bind_call(
            env.vars_view(),
            env.classic_compatible,
            def.def_view(),
            old(st).view_b(),
            args@,
            call_positional as nat,
            args@.len(),
        ) {
            Ok(b) => r is Ok && final(st).view_b() == b,
            Err(f) => r matches Err(x) && crate::eval::fail_of(x) == f,
        },
{
    let ghost d = def.def_view();
    let ghost b0 = st.view_b();
    let ghost vars = env.vars_view();
    let ghost classic = env.classic_compatible;
    let mut i: usize = 0;
    while i < args.len()
        invariant
            env.wf(),
            vars == env.vars_view(),
            classic == env.classic_compatible,
            forall|j: int| 0 <= j < args@.len() ==> crate::eval::evaluable(#[trigger] args@[j].1),
            info_ok(def, names, catch),
            d == def.def_view(),
            b0 == old(st).view_b(),
            i <= args@.len(),
            st.next_pos <= names.len() + i,
            binding_ok(st.view_b()),
            bind_call(vars, classic, d, b0, args@, call_positional as nat, i as nat) == Ok::<
                Binding,
                crate::eval::Fail,
            >(st.view_b()),
        decreases args.len() - i,
    {
        let ghost bi = st.view_b();
        let v = match crate::eval::eval_arg(env, &args[i].1) {
            Ok(v) => v,
            Err(x) => {
                proof {
                    lemma_bind_call_err(vars, classic, d, b0, args@, call_positional as nat, (i + 1) as nat, args@.len());
                }
                return Err(x);
            },
        };
        match call_arg_step_of(st, def, names, catch, &args[i].0, v, env.classic_compatible, call_positional) {
            Ok(()) => {},
            Err(e) => {
                proof {
                    assert(bind_call(vars, classic, d, b0, args@, call_positional as nat, (i + 1) as nat)
                        == crate::eval::msg_result(
                        call_arg_step(d, bi, args@[i as int].0@, v@, classic, call_positional as nat),
                    ));
                    lemma_bind_call_err(vars, classic, d, b0, args@, call_positional as nat, (i + 1) as nat, args@.len());
                }
                return Err(e);
            },
        }
        i += 1;
    }
    Ok(())
}

/// The by-name values bound last merged into the named catch-all.
fn merge_pending_of(named: &Option<Vec<(String, TModel)>>, pend: &Vec<(String, TModel)>) -> (r: Option<
    Vec<(String, TModel)>,
>)
    ensures
        opt_entries(r) == merge_pending(opt_entries(*named), entry_vals(pend@), pend@.len()),
{
    let ghost ev = entry_vals(pend@);
    proof {
        lemma_entry_vals_len(pend@);
    }
    let mut nm: Option<Vec<(String, TModel)>> = match named {
        Some(h) => Some(crate::value::copy_entries(h)),
        None => None,
    };
    let mut i: usize = 0;
    while i < pend.len()
        invariant
            ev == entry_vals(pend@),
            ev.len() == pend@.len(),
            i <= pend@.len(),
            opt_entries(nm) == merge_pending(opt_entries(*named), ev, i as nat),
        decreases pend.len() - i,
    {
        proof {
            lemma_entry_vals_index(pend@, i as int);
        }
        let exists = match &nm {
            Some(h) => has_entry(h, &pend[i].0),
            None => false,
        };
        if !exists {
            let mut h: Vec<(String, TModel)> = match nm {
                Some(h) => h,
                None => Vec::new(),
            };
            proof {
                assert(entry_vals(Seq::<(String, TModel)>::empty()) =~= Seq::<(Seq<char>, Val)>::empty());
            }
            put_entry(&mut h, &pend[i].0, pend[i].1.copy_model());
            nm = Some(h);
        }
        i += 1;
    }
    nm
}

/// The values bound last in advance, put in place after the call's own.
fn bind_last_of(
    st: &mut BindState,
    def: &MacroDef,
    names: &Vec<String>,
    catch: &Option<String>,
    pre: Option<&WithArgs>,
) -> (r: Result<(), TemplateError>)
    requires
        info_ok(def, names, catch),
        binding_ok(old(st).view_b()),
        pre_ok(pre),
    ensures
        r is Ok ==> binding_ok(final(st).view_b()),
        match bind_last(def.def_view(), old(st).view_b(), pre_args(pre)) {
            Ok(b) => r is Ok && final(st).view_b() == b,
            Err(m) => r matches Err(e) && crate::error::is_misc(e, m),
        },
{
    match pre {
        Some(wa) => {
            if !wa.order_last {
                return Ok(());
            }
            let pend: Option<Vec<(String, TModel)>> = match &st.pending {
                Some(p) => Some(crate::value::copy_entries(p)),
                None => None,
            };
            match pend {
                Some(p) => {
                    proof {
                        lemma_entry_vals_len(p@);
                    }
                    let nm = merge_pending_of(&st.named, &p);
                    proof {
                        lemma_merge_pending_ok(opt_entries(st.named), entry_vals(p@), p@.len());
                        if let Some(h) = &nm {
                            if let Some(cn) = def.def_view().catch {
                                lemma_put_ok(entry_vals(st.locals@), cn, Val::Hash(entry_vals(h@)));
                            }
                        }
                    }
                    if let Some(cn) = catch {
                        if let Some(h) = &nm {
                            let hv = TModel::Hash(crate::value::copy_entries(h));
                            put_entry(&mut st.locals, cn, hv);
                        }
                    }
                    st.named = nm;
                    Ok(())
                },
                None => match &wa.kind {
                    WithArgsKind::ByPosition(vs) => {
                        proof {
                            crate::value::lemma_vals_len(vs@);
                        }
                        place_all_of(st, def, names, catch, vs)
                    },
                    WithArgsKind::ByName(_) => Ok(()),
                },
            }
        },
        None => Ok(()),
    }
}

/// The number of positional arguments of a call.
fn count_positional(args: &Vec<(String, Expr)>) -> (r: usize)
    ensures
        r == positional_count(args@),
{
    let mut n: usize = 0;
    let mut i: usize = 0;
    assert(args@.take(0) =~= Seq::<(String, Expr)>::empty());
    while i < args.len()
        invariant
            i <= args@.len(),
            n <= i,
            n == positional_count(args@.take(i as int)),
        decreases args.len() - i,
    {
        assert(args@.take(i as int + 1).drop_last() =~= args@.take(i as int));
        if is_unnamed(&args[i].0) {
            n = n + 1;
        }
        i += 1;
    }
    assert(args@.take(i as int) =~= args@);
    n
}

/// Whether a call has a named argument.
fn any_named(args: &Vec<(String, Expr)>) -> (r: bool)
    ensures
        r == has_named_arg(args@),
{
    let mut i: usize = 0;
    while i < args.len()
        invariant
            i <= args@.len(),
            forall|j: int| 0 <= j < i ==> (#[trigger] args@[j]).0@.len() == 0,
        decreases args.len() - i,
    {
        if !is_unnamed(&args[i].0) {
            return true;
        }
        i += 1;
    }
    false
}

/// The local variables of a macro or function call after its arguments are
/// bound to its parameters (see `bind_result`); the arguments are evaluated
/// against `env`.
pub fn bind_macro_args(
    env: &crate::eval::Env,
    def: &MacroDef,
    args: &Vec<(String, Expr)>,
    with_args: Option<&WithArgs>,
) -> (r: Result<Vec<(String, TModel)>, TemplateError>)
    requires
        env.wf(),
        forall|i: int| 0 <= i < args@.len() ==> crate::eval::evaluable(#[trigger] args@[i].1),
        pre_ok(with_args),
    ensures
        r matches Ok(v) ==> all_vals_ok(entry_vals(v@)),
        match bind_result(env.vars_view(), env.classic_compatible, def.def_view(), args@, pre_args(with_args)) {
            Ok(l) => r matches Ok(v) && entry_vals(v@) == l,
            Err(f) => r matches Err(x) && crate::eval::fail_of(x) == f,
        },
{
    let names = normal_params(def);
    let catch = catch_all_param(def);
    let cp = count_positional(args);
    let hn = any_named(args);
    let pre_by_position = match with_args {
        Some(wa) => match &wa.kind {
            WithArgsKind::ByPosition(_) => true,
            WithArgsKind::ByName(_) => false,
        },
        None => false,
    };
    let bp = cp > 0 || (!hn && pre_by_position);
    let mut st = bind_pre_of(def, &names, &catch, with_args, hn, cp)?;
    before_call_of(&mut st, def, &names, &catch, bp, cp)?;
    bind_call_of(env, &mut st, def, &names, &catch, args, cp)?;
    bind_last_of(&mut st, def, &names, &catch, with_args)?;
    let mut locals = st.locals;
    match &catch {
        Some(cn) => {
            if !has_entry(&locals, cn) {
                let empty = if bp {
                    TModel::Sequence(Vec::new())
                } else {
                    TModel::Hash(Vec::new())
                };
                proof {
                    assert(crate::value::vals(Seq::<TModel>::empty()) =~= Seq::<Val>::empty());
                    assert(entry_vals(Seq::<(String, TModel)>::empty()) =~= Seq::<(Seq<char>, Val)>::empty());
                }
                proof {
                    lemma_put_ok(entry_vals(locals@), cn@, empty@);
                }
                put_entry(&mut locals, cn, empty);
            }
        },
        None => {},
    }
    Ok(locals)
}

} // verus!

verus! {

/// All values of an entry list are well formed.
pub open spec fn all_vals_ok(l: Seq<(Seq<char>, Val)>) -> bool {
    forall|i: int| 0 <= i < l.len() ==> crate::sequences::val_ok(#[trigger] l[i].1)
}

/// The first failure of a pass over the default values: a missing value
/// while evaluating a default, or a default that evaluated to null.
pub enum DefaultFailure {
    Missing(crate::eval::Fail),
    Null(Expr),
}

/// A pass over the parameters: the local variables, its first failure, and
/// whether it set a parameter.
pub struct Pass {
    pub locals: Seq<(Seq<char>, Val)>,
    pub first: Option<DefaultFailure>,
    pub changed: bool,
}

/// Whether a parameter has a value that is not null.
pub open spec fn is_set(locals: Seq<(Seq<char>, Val)>, name: Seq<char>) -> bool {
    crate::sort::hash_get(locals, name) matches Some(v) && !(v is Nothing)
}

/// "macro" or "function" in messages.
pub open spec fn kind_lower(is_function: bool) -> Seq<char> {
    if is_function {
        "function"@
    } else {
        "macro"@
    }
}

/// Message of a required parameter without a value: given as null, or not
/// given at all; `idx` counts all parameters from 1.
pub open spec fn required_msg(is_function: bool, name: Seq<char>, param: Seq<char>, idx: nat, specified: bool) -> Seq<char> {
    "When calling "@ + kind_lower(is_function) + " "@ + quoted(name) + ", required parameter "@
        + quoted(param) + " (parameter #"@ + crate::text::decimal(idx) + ") was "@ + if specified {
        "specified, but had null/missing value.\n\n----\nTip: If the parameter value expression on the caller side is known to be legally null/missing, you may want to specify a default value for it with the \"!\" operator, like paramValue!defaultValue.\n----"@
    } else {
        "not specified.\n\n----\nTip: If the omission was deliberate, you may consider making the parameter optional in the macro by specifying a default value for it, like <#macro macroName paramName=defaultExpr>)\n----"@
    }
}

/// One parameter in a pass: a parameter without a value gets its default
/// when that is not null (evaluated with the local variables in scope
/// before the others); a missing value or a null default is remembered when
/// it is the pass's first failure; a required parameter without a value is
/// an error (not in the classic mode).
pub open spec fn pass_step(
    vars: Seq<(Seq<char>, Val)>,
    classic: bool,
    is_function: bool,
    name: Seq<char>,
    p: MacroParam,
    idx: nat,
    st: Pass,
) -> Result<Pass, crate::eval::Fail> {
    if p.catch_all || is_set(st.locals, p.name@) {
        Ok(st)
    } else {
        match p.default {
            Some(dx) => match crate::eval::eval_val(st.locals + vars, classic, dx) {
                Ok(v) => if !(v is Nothing) {
                    Ok(Pass { locals: put(st.locals, p.name@, v), changed: true, ..st })
                } else if st.first is None {
                    Ok(Pass { first: Some(DefaultFailure::Null(dx)), ..st })
                } else {
                    Ok(st)
                },
                Err(crate::eval::Fail::Missing(x)) => if st.first is None {
                    Ok(Pass { first: Some(DefaultFailure::Missing(crate::eval::Fail::Missing(x))), ..st })
                } else {
                    Ok(st)
                },
                Err(f) => Err(f),
            },
            None => if !classic {
                Err(
                    crate::eval::Fail::Msg(
                        required_msg(is_function, name, p.name@, idx + 1, has_key(st.locals, p.name@)),
                    ),
                )
            } else {
                Ok(st)
            },
        }
    }
}

/// A pass over the first `n` parameters.
pub open spec fn pass(
    vars: Seq<(Seq<char>, Val)>,
    classic: bool,
    is_function: bool,
    name: Seq<char>,
    ps: Seq<MacroParam>,
    st: Pass,
    n: nat,
) -> Result<Pass, crate::eval::Fail>
    decreases n,
{
    if n == 0 || n > ps.len() {
        Ok(st)
    } else {
        match pass(vars, classic, is_function, name, ps, st, (n - 1) as nat) {
            Err(f) => Err(f),
            Ok(s1) => pass_step(vars, classic, is_function, name, ps[n - 1], (n - 1) as nat, s1),
        }
    }
}

/// The local variables once the defaults are applied, in at most `fuel`
/// passes: a pass that failed somewhere but set a parameter is repeated
/// (defaults may refer to each other); otherwise its first failure is the
/// error (a null default only outside the classic mode).
pub open spec fn defaults_result(
    vars: Seq<(Seq<char>, Val)>,
    classic: bool,
    is_function: bool,
    name: Seq<char>,
    ps: Seq<MacroParam>,
    locals: Seq<(Seq<char>, Val)>,
    fuel: nat,
) -> Result<Seq<(Seq<char>, Val)>, crate::eval::Fail>
    decreases fuel,
{
    if fuel == 0 {
        Ok(locals)
    } else {
        match pass(vars, classic, is_function, name, ps, Pass { locals, first: None, changed: false }, ps.len()) {
            Err(f) => Err(f),
            Ok(p) => if p.first is Some && p.changed {
                defaults_result(vars, classic, is_function, name, ps, p.locals, (fuel - 1) as nat)
            } else {
                match p.first {
                    Some(DefaultFailure::Missing(f)) => Err(f),
                    Some(DefaultFailure::Null(dx)) => if !classic {
                        Err(crate::eval::Fail::Missing(crate::describe::desc(dx)))
                    } else {
                        Ok(p.locals)
                    },
                    None => Ok(p.locals),
                }
            },
        }
    }
}

/// Whether every default of a definition is an expression the evaluator
/// handles.
pub open spec fn defaults_evaluable(ps: Seq<MacroParam>) -> bool {
    forall|i: int| 0 <= i < ps.len() ==> ((#[trigger] ps[i]).default matches Some(dx) ==> crate::eval::evaluable(dx))
}

/// The variables in scope while a default is evaluated: the local variables,
/// then those of the caller.
fn scope_of(locals: &Vec<(String, TModel)>, env: &crate::eval::Env) -> (r: crate::eval::Env)
    requires
        env.wf(),
        all_vals_ok(entry_vals(locals@)),
    ensures
        r.wf(),
        r.vars_view() == entry_vals(locals@) + env.vars_view(),
        r.classic_compatible == env.classic_compatible,
{
    let mut vars = crate::value::copy_entries(locals);
    let ghost base = entry_vals(locals@);
    proof {
        lemma_entry_vals_len(env.vars@);
        assert(env.vars_view().take(0) =~= Seq::<(Seq<char>, Val)>::empty());
        assert(base + env.vars_view().take(0) =~= base);
    }
    let mut i: usize = 0;
    while i < env.vars.len()
        invariant
            i <= env.vars@.len(),
            env.vars_view().len() == env.vars@.len(),
            entry_vals(vars@) == base + env.vars_view().take(i as int),
        decreases env.vars.len() - i,
    {
        proof {
            lemma_entry_vals_index(env.vars@, i as int);
        }
        let k = env.vars[i].0.clone();
        let m = env.vars[i].1.copy_model();
        let ghost before = vars@;
        vars.push((k, m));
        proof {
            crate::value::lemma_entry_vals_push(before, vars@.last());
            assert(vars@ =~= before.push(vars@.last()));
            assert(base + env.vars_view().take(i as int + 1) =~= (base + env.vars_view().take(i as int)).push(
                env.vars_view()[i as int],
            ));
        }
        i += 1;
    }
    proof {
        assert(env.vars_view().take(i as int) =~= env.vars_view());
    }
    let r = crate::eval::Env { vars, classic_compatible: env.classic_compatible };
    assert forall|j: int| 0 <= j < r.vars_view().len() implies crate::sequences::val_ok(
        #[trigger] r.vars_view()[j].1,
    ) by {
        if j < base.len() {
            assert(r.vars_view()[j] == base[j]);
        } else {
            assert(r.vars_view()[j] == env.vars_view()[j - base.len()]);
        }
    }
    r
}

} // verus!

verus! {

/// The first failure of a pass while it runs: the error of a missing value,
/// or the index of the parameter whose default was null.
enum FirstFailure {
    Missing(TemplateError),
    Null(usize),
}

/// The first failure as the model describes it.
spec fn failure_view(ps: Seq<MacroParam>, f: Option<FirstFailure>) -> Option<DefaultFailure> {
    match f {
        None => None,
        Some(FirstFailure::Missing(e)) => Some(DefaultFailure::Missing(crate::eval::fail_of(e))),
        Some(FirstFailure::Null(i)) => Some(DefaultFailure::Null(ps[i as int].default->Some_0)),
    }
}

/// Whether a remembered null default names a parameter with a default.
spec fn failure_ok(ps: Seq<MacroParam>, f: Option<FirstFailure>) -> bool {
    f matches Some(FirstFailure::Null(i)) ==> i < ps.len() && ps[i as int].default is Some
}

fn required_error(def: &MacroDef, param: &String, idx: usize, specified: bool) -> (e: TemplateError)
    requires
        idx < usize::MAX,
    ensures
        crate::error::is_misc(e, required_msg(def.is_function, def.name@, param@, (idx + 1) as nat, specified)),
{
    let mut m = String::from_str("When calling ");
    if def.is_function {
        push_str(&mut m, "function");
    } else {
        push_str(&mut m, "macro");
    }
    push_str(&mut m, " ");
    let q = crate::settings::quote_name(def.name.as_str());
    push_str(&mut m, q.as_str());
    push_str(&mut m, ", required parameter ");
    let qp = crate::settings::quote_name(param.as_str());
    push_str(&mut m, qp.as_str());
    push_str(&mut m, " (parameter #");
    let t = crate::text::usize_text(idx + 1);
    push_str(&mut m, t.as_str());
    push_str(&mut m, ") was ");
    if specified {
        push_str(
            &mut m,
            "specified, but had null/missing value.\n\n----\nTip: If the parameter value expression on the caller side is known to be legally null/missing, you may want to specify a default value for it with the \"!\" operator, like paramValue!defaultValue.\n----",
        );
    } else {
        push_str(
            &mut m,
            "not specified.\n\n----\nTip: If the omission was deliberate, you may consider making the parameter optional in the macro by specifying a default value for it, like <#macro macroName paramName=defaultExpr>)\n----",
        );
    }
    proof {
        assert(m@ =~= required_msg(def.is_function, def.name@, param@, (idx + 1) as nat, specified));
    }
    TemplateError::misc(m)
}

/// Once a prefix of a pass failed, the whole pass fails with that error.
pub proof fn lemma_pass_err(
    vars: Seq<(Seq<char>, Val)>,
    classic: bool,
    is_function: bool,
    name: Seq<char>,
    ps: Seq<MacroParam>,
    st: Pass,
    k: nat,
    n: nat,
)
    requires
        k <= n <= ps.len(),
        pass(vars, classic, is_function, name, ps, st, k) is Err,
    ensures
        pass(vars, classic, is_function, name, ps, st, n) == pass(vars, classic, is_function, name, ps, st, k),
    decreases n,
{
    if n > k {
        lemma_pass_err(vars, classic, is_function, name, ps, st, k, (n - 1) as nat);
    }
}

/// One pass over the parameters.
fn run_pass(env: &crate::eval::Env, def: &MacroDef, locals: &mut Vec<(String, TModel)>) -> (r: Result<
    (Option<FirstFailure>, bool),
    TemplateError,
>)
    requires
        env.wf(),
        all_vals_ok(entry_vals(old(locals)@)),
        defaults_evaluable(def.params@),
    ensures
        match pass(
            env.vars_view(),
            env.classic_compatible,
            def.is_function,
            def.name@,
            def.params@,
            Pass { locals: entry_vals(old(locals)@), first: None, changed: false },
            def.params@.len(),
        ) {
            Ok(p) => r matches Ok((ff, ch)) && entry_vals(final(locals)@) == p.locals && ch == p.changed
                && failure_view(def.params@, ff) == p.first && failure_ok(def.params@, ff) && all_vals_ok(
                entry_vals(final(locals)@),
            ),
            Err(f) => r matches Err(x) && crate::eval::fail_of(x) == f,
        },
{
    let ghost vars = env.vars_view();
    let ghost classic = env.classic_compatible;
    let ghost ps = def.params@;
    let ghost st0 = Pass { locals: entry_vals(locals@), first: None, changed: false };
    let mut ff: Option<FirstFailure> = None;
    let mut changed = false;
    let mut idx: usize = 0;
    while idx < def.params.len()
        invariant
            env.wf(),
            vars == env.vars_view(),
            classic == env.classic_compatible,
            ps == def.params@,
            defaults_evaluable(ps),
            idx <= ps.len(),
            all_vals_ok(entry_vals(locals@)),
            failure_ok(ps, ff),
            st0 == (Pass { locals: entry_vals(old(locals)@), first: None, changed: false }),
            pass(vars, classic, def.is_function, def.name@, ps, st0, idx as nat) == Ok::<Pass, crate::eval::Fail>(
                Pass { locals: entry_vals(locals@), first: failure_view(ps, ff), changed },
            ),
        decreases def.params.len() - idx,
    {
        let p = &def.params[idx];
        let ghost cur_st = Pass { locals: entry_vals(locals@), first: failure_view(ps, ff), changed };
        if !p.catch_all {
            let cur = crate::sort::hash_lookup(locals, p.name.as_str());
            let set = match &cur {
                Some(m) => !m.is_nothing(),
                None => false,
            };
            if !set {
                match &p.default {
                    Some(dx) => {
                        assert(crate::eval::evaluable(*dx));
                        let scope = scope_of(locals, env);
                        match crate::eval::eval(&scope, dx) {
                            Ok(v) => {
                                if !v.is_nothing() {
                                    let ghost before = entry_vals(locals@);
                                    put_entry(locals, &p.name, v);
                                    proof {
                                        assert forall|j: int| 0 <= j < entry_vals(locals@).len() implies crate::sequences::val_ok(
                                            #[trigger] entry_vals(locals@)[j].1,
                                        ) by {
                                            if has_key(before, p.name@) {
                                                if before[j].0 != p.name@ {
                                                    assert(entry_vals(locals@)[j] == before[j]);
                                                }
                                            } else if j < before.len() {
                                                assert(entry_vals(locals@)[j] == before[j]);
                                            }
                                        }
                                    }
                                    changed = true;
                                } else if ff.is_none() {
                                    ff = Some(FirstFailure::Null(idx));
                                }
                            },
                            Err(e) => {
                                if matches!(e, TemplateError::InvalidReference { .. }) {
                                    if ff.is_none() {
                                        ff = Some(FirstFailure::Missing(e));
                                    }
                                } else {
                                    proof {
                                        lemma_pass_err(vars, classic, def.is_function, def.name@, ps, st0, (idx + 1) as nat, ps.len());
                                    }
                                    return Err(e);
                                }
                            },
                        }
                    },
                    None => {
                        if !env.classic_compatible {
                            let specified = has_entry(locals, &p.name);
                            let e = required_error(def, &p.name, idx, specified);
                            proof {
                                lemma_pass_err(vars, classic, def.is_function, def.name@, ps, st0, (idx + 1) as nat, ps.len());
                            }
                            return Err(e);
                        }
                    },
                }
            }
        }
        idx += 1;
    }
    Ok((ff, changed))
}

/// Applies the default values of the parameters that have no value (see
/// `defaults_result`), with the local variables and then the variables in
/// `env` in scope.
pub fn apply_macro_defaults(env: &crate::eval::Env, def: &MacroDef, locals: &mut Vec<(String, TModel)>) -> (r:
    Result<(), TemplateError>)
    requires
        env.wf(),
        all_vals_ok(entry_vals(old(locals)@)),
        defaults_evaluable(def.params@),
    ensures
        match defaults_result(
            env.vars_view(),
            env.classic_compatible,
            def.is_function,
            def.name@,
            def.params@,
            entry_vals(old(locals)@),
            def.params@.len() + 1,
        ) {
            Ok(l) => r is Ok && entry_vals(final(locals)@) == l,
            Err(f) => r matches Err(x) && crate::eval::fail_of(x) == f,
        },
{
    let ghost vars = env.vars_view();
    let ghost classic = env.classic_compatible;
    let ghost ps = def.params@;
    let ghost total = defaults_result(vars, classic, def.is_function, def.name@, ps, entry_vals(locals@), ps.len() + 1);
    let mut left: u128 = def.params.len() as u128 + 1;
    while left > 0
        invariant
            env.wf(),
            vars == env.vars_view(),
            classic == env.classic_compatible,
            ps == def.params@,
            defaults_evaluable(ps),
            all_vals_ok(entry_vals(locals@)),
            total == defaults_result(vars, classic, def.is_function, def.name@, ps, entry_vals(locals@), left as nat),
            total == defaults_result(
                vars,
                classic,
                def.is_function,
                def.name@,
                ps,
                entry_vals(old(locals)@),
                ps.len() + 1,
            ),
        decreases left,
    {
        let (ff, ch) = run_pass(env, def, locals)?;
        match ff {
            Some(FirstFailure::Missing(e)) => {
                if ch {
                    left = left - 1;
                } else {
                    return Err(e);
                }
            },
            Some(FirstFailure::Null(i)) => {
                if ch {
                    left = left - 1;
                } else {
                    if !env.classic_compatible {
                        let dx = match &def.params[i].default {
                            Some(dx) => dx,
                            None => {
                                return Ok(());
                            },
                        };
                        return Err(TemplateError::invalid_reference(crate::describe::expr_desc(dx)));
                    }
                    return Ok(());
                }
            },
            None => {
                return Ok(());
            },
        }
    }
    Ok(())
}

} // verus!

verus! {

/// The value of a local variable, null when it has none.
pub open spec fn local_or_null(locals: Seq<(Seq<char>, Val)>, name: Seq<char>) -> Val {
    match crate::sort::hash_get(locals, name) {
        Some(v) => v,
        None => Val::Nothing,
    }
}

/// The first `n` parameter names with their values, as hash entries.
pub open spec fn named_values(locals: Seq<(Seq<char>, Val)>, names: Seq<Seq<char>>, n: nat) -> Seq<(Seq<char>, Val)>
    decreases n,
{
    if n == 0 || n > names.len() {
        Seq::empty()
    } else {
        put(named_values(locals, names, (n - 1) as nat), names[n - 1], local_or_null(locals, names[n - 1]))
    }
}

/// The first `n` entries of `es` put into `h`, in order.
pub open spec fn put_all(h: Seq<(Seq<char>, Val)>, es: Seq<(Seq<char>, Val)>, n: nat) -> Seq<(Seq<char>, Val)>
    decreases n,
{
    if n == 0 || n > es.len() {
        h
    } else {
        put(put_all(h, es, (n - 1) as nat), es[n - 1].0, es[n - 1].1)
    }
}

/// Message of `.args` in a macro whose catch-all got positional arguments.
pub open spec fn args_with_catch_all_msg() -> Seq<char> {
    "The macro can only by called with named arguments, because it uses both .args and a non-empty catch-all parameter."@
}

/// The value of `.args`: for a function, the values of its parameters in
/// order, then the items of a positional catch-all; for a macro, a hash of
/// its parameters and their values, then the entries of a named catch-all
/// (a non-empty positional catch-all is an error).
pub open spec fn args_value(locals: Seq<(Seq<char>, Val)>, d: DefView, is_function: bool) -> Result<Val, Seq<char>> {
    let caught = match d.catch {
        Some(cn) => local_or_null(locals, cn),
        None => Val::Nothing,
    };
    if is_function {
        let base = d.names.map_values(|n: Seq<char>| local_or_null(locals, n));
        Ok(
            Val::Sequence(
                match caught {
                    Val::Sequence(items) => base + items,
                    _ => base,
                },
            ),
        )
    } else {
        let base = named_values(locals, d.names, d.names.len());
        match caught {
            Val::Sequence(items) => if items.len() != 0 {
                Err(args_with_catch_all_msg())
            } else {
                Ok(Val::Hash(base))
            },
            Val::Hash(es) => Ok(Val::Hash(put_all(base, es, es.len()))),
            _ => Ok(Val::Hash(base)),
        }
    }
}

/// The value of a local variable, null when it has none.
fn local_value(locals: &Vec<(String, TModel)>, name: &String) -> (r: TModel)
    ensures
        r@ == local_or_null(entry_vals(locals@), name@),
{
    match crate::sort::hash_lookup(locals, name.as_str()) {
        Some(m) => m,
        None => TModel::Nothing,
    }
}

/// The value of `.args` inside a call of `def` with the given local
/// variables (see `args_value`).
pub fn build_args_special(locals: &Vec<(String, TModel)>, def: &MacroDef, is_function: bool) -> (r: Result<
    TModel,
    TemplateError,
>)
    ensures
        match args_value(entry_vals(locals@), def.def_view(), is_function) {
            Ok(v) => r matches Ok(m) && m@ == v,
            Err(msg) => r matches Err(e) && crate::error::is_misc(e, msg),
        },
{
    let names = normal_params(def);
    let catch = catch_all_param(def);
    let ghost lv = entry_vals(locals@);
    let ghost ns = crate::text::strings_view(names@);
    let caught = match &catch {
        Some(cn) => local_value(locals, cn),
        None => TModel::Nothing,
    };
    if is_function {
        let mut out: Vec<TModel> = Vec::new();
        let mut i: usize = 0;
        while i < names.len()
            invariant
                i <= names@.len(),
                ns == crate::text::strings_view(names@),
                lv == entry_vals(locals@),
                crate::value::vals(out@) == ns.take(i as int).map_values(|n: Seq<char>| local_or_null(lv, n)),
            decreases names.len() - i,
        {
            let v = local_value(locals, &names[i]);
            let ghost before = out@;
            out.push(v);
            proof {
                crate::value::lemma_vals_push(before, v);
                assert(ns.take(i as int + 1).map_values(|n: Seq<char>| local_or_null(lv, n)) =~= ns.take(
                    i as int,
                ).map_values(|n: Seq<char>| local_or_null(lv, n)).push(local_or_null(lv, ns[i as int])));
            }
            i += 1;
        }
        proof {
            assert(ns.take(i as int) =~= ns);
        }
        if let TModel::Sequence(items) = &caught {
            let ghost base = out@;
            let mut j: usize = 0;
            proof {
                crate::value::lemma_vals_len(items@);
                assert(crate::value::vals(items@).take(0) =~= Seq::<Val>::empty());
                assert(crate::value::vals(out@) + crate::value::vals(items@).take(0) =~= crate::value::vals(out@));
            }
            while j < items.len()
                invariant
                    j <= items@.len(),
                    crate::value::vals(items@).len() == items@.len(),
                    crate::value::vals(out@) == crate::value::vals(base) + crate::value::vals(items@).take(j as int),
                decreases items.len() - j,
            {
                proof {
                    crate::value::lemma_vals_index(items@, j as int);
                }
                let v = items[j].copy_model();
                let ghost before = out@;
                out.push(v);
                proof {
                    crate::value::lemma_vals_push(before, v);
                    assert(crate::value::vals(base) + crate::value::vals(items@).take(j as int + 1) =~= (
                    crate::value::vals(base) + crate::value::vals(items@).take(j as int)).push(
                        crate::value::vals(items@)[j as int],
                    ));
                }
                j += 1;
            }
            proof {
                assert(crate::value::vals(items@).take(j as int) =~= crate::value::vals(items@));
            }
        }
        return Ok(TModel::Sequence(out));
    }
    let mut h: Vec<(String, TModel)> = Vec::new();
    let mut i: usize = 0;
    proof {
        assert(entry_vals(h@) =~= Seq::<(Seq<char>, Val)>::empty());
    }
    while i < names.len()
        invariant
            i <= names@.len(),
            ns == crate::text::strings_view(names@),
            lv == entry_vals(locals@),
            entry_vals(h@) == named_values(lv, ns, i as nat),
        decreases names.len() - i,
    {
        let v = local_value(locals, &names[i]);
        put_entry(&mut h, &names[i], v);
        i += 1;
    }
    match &caught {
        TModel::Sequence(items) => {
            if items.len() != 0 {
                proof {
                    crate::value::lemma_vals_len(items@);
                }
                return Err(TemplateError::misc(String::from_str(
                    "The macro can only by called with named arguments, because it uses both .args and a non-empty catch-all parameter.",
                )));
            }
            proof {
                crate::value::lemma_vals_len(items@);
            }
            Ok(TModel::Hash(h))
        },
        TModel::Hash(es) => {
            let ghost base = entry_vals(h@);
            let ghost ev = entry_vals(es@);
            proof {
                lemma_entry_vals_len(es@);
            }
            let mut j: usize = 0;
            while j < es.len()
                invariant
                    j <= es@.len(),
                    ev == entry_vals(es@),
                    ev.len() == es@.len(),
                    entry_vals(h@) == put_all(base, ev, j as nat),
                decreases es.len() - j,
            {
                proof {
                    lemma_entry_vals_index(es@, j as int);
                }
                put_entry(&mut h, &es[j].0, es[j].1.copy_model());
                j += 1;
            }
            Ok(TModel::Hash(h))
        },
        _ => Ok(TModel::Hash(h)),
    }
}

} // verus!

verus! {

/// All values held while binding are well formed.
pub open spec fn binding_ok(b: Binding) -> bool {
    &&& all_vals_ok(b.locals)
    &&& (b.named matches Some(h) ==> all_vals_ok(h) && crate::sequences::keys_distinct(h))
    &&& (b.positional matches Some(p) ==> forall|i: int|
        0 <= i < p.len() ==> crate::sequences::val_ok(#[trigger] p[i]))
    &&& (b.pending matches Some(h) ==> all_vals_ok(h))
}

/// Setting a key keeps the keys of an entry list distinct.
pub proof fn lemma_put_distinct(l: Seq<(Seq<char>, Val)>, k: Seq<char>, v: Val)
    requires
        crate::sequences::keys_distinct(l),
    ensures
        crate::sequences::keys_distinct(put(l, k, v)),
{
    let r = put(l, k, v);
    if !has_key(l, k) {
        assert forall|i: int, j: int| 0 <= i < j < r.len() implies #[trigger] r[i].0 != #[trigger] r[j].0 by {
            if j == l.len() {
                assert(r[i] == l[i]);
                if l[i].0 == k {
                    assert(has_key(l, k));
                }
            } else {
                assert(r[i] == l[i] && r[j] == l[j]);
            }
        }
    }
}

/// Setting a well-formed value keeps the values of an entry list well formed.
pub proof fn lemma_put_ok(l: Seq<(Seq<char>, Val)>, k: Seq<char>, v: Val)
    requires
        all_vals_ok(l),
        crate::sequences::val_ok(v),
    ensures
        all_vals_ok(put(l, k, v)),
{
    let r = put(l, k, v);
    assert forall|i: int| 0 <= i < r.len() implies crate::sequences::val_ok(#[trigger] r[i].1) by {
        if !has_key(l, k) && i < l.len() {
            assert(r[i] == l[i]);
        }
    }
}

/// Placing a well-formed positional value keeps the binding well formed.
pub proof fn lemma_place_positional_ok(d: DefView, b: Binding, v: Val, cnt: nat)
    requires
        binding_ok(b),
        crate::sequences::val_ok(v),
    ensures
        place_positional(d, b, v, cnt) matches Ok(b2) ==> binding_ok(b2),
{
    if b.next_pos < d.names.len() {
        lemma_put_ok(b.locals, d.names[b.next_pos as int], v);
    } else if let Some(cn) = d.catch {
        let ps = items_or_empty(b.positional).push(v);
        assert forall|i: int| 0 <= i < ps.len() implies crate::sequences::val_ok(#[trigger] ps[i]) by {
            if i < ps.len() - 1 {
                assert(ps[i] == items_or_empty(b.positional)[i]);
            }
        }
        lemma_put_ok(b.locals, cn, Val::Sequence(ps));
    }
}

/// Binding a well-formed value by name keeps the binding well formed.
pub proof fn lemma_pre_by_name_step_ok(d: DefView, b: Binding, k: Seq<char>, v: Val, last: bool)
    requires
        binding_ok(b),
        crate::sequences::val_ok(v),
    ensures
        pre_by_name_step(d, b, k, v, last) matches Ok(b2) ==> binding_ok(b2),
{
    if d.names.contains(k) {
        lemma_put_ok(b.locals, k, v);
    } else if let Some(cn) = d.catch {
        let named0 = entries_or_empty(b.named);
        if last {
            let pd = entries_or_empty(b.pending).push((k, v));
            assert forall|i: int| 0 <= i < pd.len() implies crate::sequences::val_ok(#[trigger] pd[i].1) by {
                if i < pd.len() - 1 {
                    assert(pd[i] == entries_or_empty(b.pending)[i]);
                }
            }
        } else {
            lemma_put_ok(named0, k, v);
            lemma_put_distinct(named0, k, v);
            let nh = put(named0, k, v);
            lemma_put_ok(b.locals, cn, Val::Hash(nh));
        }
    }
}

/// Binding a well-formed argument value keeps the binding well formed.
pub proof fn lemma_call_arg_step_ok(d: DefView, b: Binding, name: Seq<char>, v: Val, classic: bool, cp: nat)
    requires
        binding_ok(b),
        crate::sequences::val_ok(v),
    ensures
        call_arg_step(d, b, name, v, classic, cp) matches Ok(b2) ==> binding_ok(b2),
{
    if v is Nothing && classic {
    } else if name.len() == 0 {
        lemma_place_positional_ok(d, b, v, cp + b.next_pos);
    } else if d.names.contains(name) {
        lemma_put_ok(b.locals, name, v);
    } else if let Some(cn) = d.catch {
        if b.positional is None {
            lemma_put_ok(entries_or_empty(b.named), name, v);
            lemma_put_distinct(entries_or_empty(b.named), name, v);
            let nh = put(entries_or_empty(b.named), name, v);
            lemma_put_ok(b.locals, cn, Val::Hash(nh));
        }
    }
}

/// Merging well-formed values into a well-formed catch-all keeps it well
/// formed.
pub proof fn lemma_merge_pending_ok(named: Option<Seq<(Seq<char>, Val)>>, es: Seq<(Seq<char>, Val)>, n: nat)
    requires
        named matches Some(h) ==> all_vals_ok(h) && crate::sequences::keys_distinct(h),
        all_vals_ok(es),
    ensures
        merge_pending(named, es, n) matches Some(h) ==> all_vals_ok(h) && crate::sequences::keys_distinct(h),
    decreases n,
{
    if n > 0 && n <= es.len() {
        lemma_merge_pending_ok(named, es, (n - 1) as nat);
        let m = merge_pending(named, es, (n - 1) as nat);
        lemma_put_ok(entries_or_empty(m), es[n - 1].0, es[n - 1].1);
        lemma_put_distinct(entries_or_empty(m), es[n - 1].0, es[n - 1].1);
    }
}

} // verus!

verus! {

/// Looking a key up after appending an entry.
pub proof fn lemma_hash_get_push(l: Seq<(Seq<char>, Val)>, e: (Seq<char>, Val), x: Seq<char>)
    ensures
        crate::sort::hash_get(l.push(e), x) == (match crate::sort::hash_get(l, x) {
            Some(y) => Some(y),
            None => if e.0 == x {
                Some(e.1)
            } else {
                None
            },
        }),
    decreases l.len(),
{
    if l.len() > 0 {
        assert(l.push(e)[0] == l[0]);
        assert(l.push(e).skip(1) =~= l.skip(1).push(e));
        lemma_hash_get_push(l.skip(1), e, x);
    } else {
        assert(l.push(e)[0] == e);
        assert(l.push(e).skip(1) =~= Seq::<(Seq<char>, Val)>::empty());
        assert(crate::sort::hash_get(Seq::<(Seq<char>, Val)>::empty(), x) is None);
    }
}

/// Looking a key up after every entry with key `k` got value `v`.
pub proof fn lemma_hash_get_replace(l: Seq<(Seq<char>, Val)>, k: Seq<char>, v: Val, x: Seq<char>)
    ensures
        crate::sort::hash_get(Seq::new(l.len(), |i: int| if l[i].0 == k { (k, v) } else { l[i] }), x) == (if x
            == k {
            if has_key(l, k) {
                Some(v)
            } else {
                None
            }
        } else {
            crate::sort::hash_get(l, x)
        }),
    decreases l.len(),
{
    let r = Seq::new(l.len(), |i: int| if l[i].0 == k { (k, v) } else { l[i] });
    if l.len() > 0 {
        let t = l.skip(1);
        let rt = Seq::new(t.len(), |i: int| if t[i].0 == k { (k, v) } else { t[i] });
        assert(r.skip(1) =~= rt);
        lemma_hash_get_replace(t, k, v, x);
        if has_key(t, k) {
            let j = choose|j: int| 0 <= j < t.len() && #[trigger] t[j].0 == k;
            assert(l[j + 1].0 == k);
        }
        if has_key(l, k) && l[0].0 != k {
            let j = choose|j: int| 0 <= j < l.len() && #[trigger] l[j].0 == k;
            assert(t[j - 1].0 == k);
        }
    }
}

/// Looking a key up after it was set: the new value for that key, the old
/// lookup for others.
pub proof fn lemma_hash_get_put(l: Seq<(Seq<char>, Val)>, k: Seq<char>, v: Val, x: Seq<char>)
    ensures
        crate::sort::hash_get(put(l, k, v), x) == (if x == k {
            Some(v)
        } else {
            crate::sort::hash_get(l, x)
        }),
{
    if has_key(l, k) {
        lemma_hash_get_replace(l, k, v, x);
        assert(put(l, k, v) =~= Seq::new(l.len(), |i: int| if l[i].0 == k { (k, v) } else { l[i] }));
    } else {
        lemma_hash_get_push(l, (k, v), x);
        if x == k {
            lemma_hash_get_absent(l, k);
        }
    }
}

/// A key that no entry has is not found.
pub proof fn lemma_hash_get_absent(l: Seq<(Seq<char>, Val)>, k: Seq<char>)
    requires
        !has_key(l, k),
    ensures
        crate::sort::hash_get(l, k) is None,
    decreases l.len(),
{
    if l.len() > 0 {
        assert(l[0].0 != k);
        assert forall|j: int| 0 <= j < l.skip(1).len() implies #[trigger] l.skip(1)[j].0 != k by {
            assert(l[j + 1].0 != k);
        }
        lemma_hash_get_absent(l.skip(1), k);
    }
}

/// The number of ordinary parameters among the first `n` that have no
/// value.
pub open spec fn unset_count(ps: Seq<MacroParam>, locals: Seq<(Seq<char>, Val)>, n: nat) -> nat
    decreases n,
{
    if n == 0 || n > ps.len() {
        0
    } else {
        unset_count(ps, locals, (n - 1) as nat) + if !ps[n - 1].catch_all && !is_set(locals, ps[n - 1].name@) {
            1nat
        } else {
            0nat
        }
    }
}

/// Whether every name that has a value in `a` has one in `b`.
pub open spec fn set_grows(a: Seq<(Seq<char>, Val)>, b: Seq<(Seq<char>, Val)>) -> bool {
    forall|x: Seq<char>| #[trigger] is_set(a, x) ==> is_set(b, x)
}

/// A pass only adds values, and when it set a parameter, that parameter had
/// no value before it.
pub proof fn lemma_pass_progress(
    vars: Seq<(Seq<char>, Val)>,
    classic: bool,
    is_function: bool,
    name: Seq<char>,
    ps: Seq<MacroParam>,
    st: Pass,
    n: nat,
)
    requires
        n <= ps.len(),
    ensures
        pass(vars, classic, is_function, name, ps, st, n) matches Ok(p) ==> {
            &&& set_grows(st.locals, p.locals)
            &&& (p.changed ==> st.changed || exists|i: int|
                0 <= i < n && !(#[trigger] ps[i]).catch_all && !is_set(st.locals, ps[i].name@) && is_set(
                    p.locals,
                    ps[i].name@,
                ))
        },
    decreases n,
{
    if n > 0 {
        lemma_pass_progress(vars, classic, is_function, name, ps, st, (n - 1) as nat);
        match pass(vars, classic, is_function, name, ps, st, (n - 1) as nat) {
            Ok(s1) => {
                let prm = ps[n - 1];
                match pass_step(vars, classic, is_function, name, prm, (n - 1) as nat, s1) {
                    Ok(s2) => {
                        if !(prm.catch_all || is_set(s1.locals, prm.name@)) && prm.default is Some {
                            let dx = prm.default->Some_0;
                            match crate::eval::eval_val(s1.locals + vars, classic, dx) {
                                Ok(v) => {
                                    if !(v is Nothing) {
                                        assert(s2.locals == put(s1.locals, prm.name@, v));
                                        assert forall|x: Seq<char>| #[trigger] is_set(s1.locals, x) implies is_set(
                                            s2.locals,
                                            x,
                                        ) by {
                                            lemma_hash_get_put(s1.locals, prm.name@, v, x);
                                        }
                                        lemma_hash_get_put(s1.locals, prm.name@, v, prm.name@);
                                        assert(is_set(s2.locals, prm.name@));
                                    } else {
                                        assert(s2.locals == s1.locals);
                                    }
                                },
                                Err(_) => {
                                    assert(s2.locals == s1.locals);
                                },
                            }
                        } else {
                            assert(s2.locals == s1.locals);
                            assert(s2.changed == s1.changed);
                        }
                        assert forall|x: Seq<char>| #[trigger] is_set(st.locals, x) implies is_set(s2.locals, x) by {
                            assert(is_set(s1.locals, x));
                        }
                        if s2.changed && !st.changed {
                            if s1.changed {
                                let i = choose|i: int|
                                    0 <= i < n - 1 && !(#[trigger] ps[i]).catch_all && !is_set(st.locals, ps[i].name@)
                                        && is_set(s1.locals, ps[i].name@);
                                assert(is_set(s2.locals, ps[i].name@));
                            } else {
                                assert(!prm.catch_all && !is_set(s1.locals, prm.name@) && is_set(s2.locals, prm.name@));
                                if is_set(st.locals, prm.name@) {
                                    assert(is_set(s1.locals, prm.name@));
                                }
                                assert(ps[n - 1] == prm);
                            }
                        }
                    },
                    Err(_) => {},
                }
            },
            Err(_) => {},
        }
    }
}

/// Fewer parameters lack a value once values were only added, and strictly
/// fewer when one among them got a value.
pub proof fn lemma_unset_count(ps: Seq<MacroParam>, a: Seq<(Seq<char>, Val)>, b: Seq<(Seq<char>, Val)>, n: nat)
    requires
        set_grows(a, b),
        n <= ps.len(),
    ensures
        unset_count(ps, b, n) <= unset_count(ps, a, n) <= n,
        (exists|i: int| 0 <= i < n && !(#[trigger] ps[i]).catch_all && !is_set(a, ps[i].name@) && is_set(b, ps[i].name@))
            ==> unset_count(ps, b, n) < unset_count(ps, a, n),
    decreases n,
{
    if n > 0 {
        lemma_unset_count(ps, a, b, (n - 1) as nat);
        let prm = ps[n - 1];
        if is_set(a, prm.name@) {
            assert(is_set(b, prm.name@));
        }
        if exists|i: int| 0 <= i < n && !(#[trigger] ps[i]).catch_all && !is_set(a, ps[i].name@) && is_set(b, ps[i].name@) {
            let i = choose|i: int| 0 <= i < n && !(#[trigger] ps[i]).catch_all && !is_set(a, ps[i].name@) && is_set(b, ps[i].name@);
            if i < n - 1 {
            }
        }
    }
}

/// The outcome of applying defaults does not depend on the number of passes
/// allowed once it exceeds the number of parameters still without a value.
pub proof fn lemma_defaults_fuel(
    vars: Seq<(Seq<char>, Val)>,
    classic: bool,
    is_function: bool,
    name: Seq<char>,
    ps: Seq<MacroParam>,
    locals: Seq<(Seq<char>, Val)>,
    fuel: nat,
    extra: nat,
)
    requires
        fuel > unset_count(ps, locals, ps.len()),
    ensures
        defaults_result(vars, classic, is_function, name, ps, locals, fuel) == defaults_result(
            vars,
            classic,
            is_function,
            name,
            ps,
            locals,
            fuel + extra,
        ),
    decreases fuel,
{
    let st = Pass { locals, first: None, changed: false };
    lemma_pass_progress(vars, classic, is_function, name, ps, st, ps.len());
    match pass(vars, classic, is_function, name, ps, st, ps.len()) {
        Ok(p) => {
            if p.first is Some && p.changed {
                lemma_unset_count(ps, locals, p.locals, ps.len());
                lemma_defaults_fuel(vars, classic, is_function, name, ps, p.locals, (fuel - 1) as nat, extra);
                assert((fuel + extra - 1) as nat == (fuel - 1) as nat + extra);
            }
        },
        Err(_) => {},
    }
}

/// Applying default values ends: passes are repeated only while they give
/// a value to a parameter that had none, so more passes than there are
/// parameters never change the outcome.
pub proof fn law_defaults_settle(
    vars: Seq<(Seq<char>, Val)>,
    classic: bool,
    is_function: bool,
    name: Seq<char>,
    ps: Seq<MacroParam>,
    locals: Seq<(Seq<char>, Val)>,
    extra: nat,
)
    ensures
        defaults_result(vars, classic, is_function, name, ps, locals, ps.len() + 1) == defaults_result(
            vars,
            classic,
            is_function,
            name,
            ps,
            locals,
            ps.len() + 1 + extra,
        ),
{
    lemma_unset_count(ps, locals, locals, ps.len());
    lemma_defaults_fuel(vars, classic, is_function, name, ps, locals, ps.len() + 1, extra);
}


/// A call whose arguments are all positional has as many positional
/// arguments as arguments.
pub proof fn lemma_all_positional(args: Seq<(String, Expr)>)
    requires
        forall|i: int| 0 <= i < args.len() ==> (#[trigger] args[i]).0@.len() == 0,
    ensures
        positional_count(args) == args.len(),
        !has_named_arg(args),
    decreases args.len(),
{
    if args.len() > 0 {
        assert forall|i: int| 0 <= i < args.drop_last().len() implies (#[trigger] args.drop_last()[i]).0@.len() == 0 by {
            assert(args.drop_last()[i] == args[i]);
        }
        lemma_all_positional(args.drop_last());
        assert(args.last() == args[args.len() - 1]);
    }
}

/// The parameters and values bound so far by position.
pub open spec fn zipped(names: Seq<Seq<char>>, vals: Seq<Val>, k: int) -> Seq<(Seq<char>, Val)> {
    Seq::new(k as nat, |i: int| (names[i], vals[i]))
}

/// Positional arguments without a catch-all, values bound in advance or
/// nulls bind the parameters in the order they are declared: the `i`-th
/// argument's value goes to the `i`-th parameter (names distinct).
pub proof fn law_positional_args_bind_in_order(
    vars: Seq<(Seq<char>, Val)>,
    classic: bool,
    d: DefView,
    args: Seq<(String, Expr)>,
    vals: Seq<Val>,
)
    requires
        d.catch is None,
        args.len() <= d.names.len(),
        vals.len() == args.len(),
        forall|i: int, j: int| 0 <= i < j < d.names.len() ==> d.names[i] != d.names[j],
        forall|i: int| 0 <= i < args.len() ==> (#[trigger] args[i]).0@.len() == 0,
        forall|i: int|
            0 <= i < args.len() ==> crate::eval::arg_lenient(vars, classic, #[trigger] args[i].1) == Ok::<
                Val,
                crate::eval::Fail,
            >(vals[i]),
        forall|i: int| 0 <= i < vals.len() ==> !(#[trigger] vals[i] is Nothing),
    ensures
        bind_result(vars, classic, d, args, None) == Ok::<Seq<(Seq<char>, Val)>, crate::eval::Fail>(
            zipped(d.names, vals, args.len() as int),
        ),
{
    lemma_all_positional(args);
    let cp = args.len();
    assert(before_call(d, start(), false, cp) == Ok::<Binding, Seq<char>>(start()));
    lemma_bind_in_order(vars, classic, d, args, vals, args.len());
}

/// The first `n` positional arguments bound in order.
proof fn lemma_bind_in_order(
    vars: Seq<(Seq<char>, Val)>,
    classic: bool,
    d: DefView,
    args: Seq<(String, Expr)>,
    vals: Seq<Val>,
    n: nat,
)
    requires
        d.catch is None,
        n <= args.len() <= d.names.len(),
        vals.len() == args.len(),
        forall|i: int, j: int| 0 <= i < j < d.names.len() ==> d.names[i] != d.names[j],
        forall|i: int| 0 <= i < args.len() ==> (#[trigger] args[i]).0@.len() == 0,
        forall|i: int|
            0 <= i < args.len() ==> crate::eval::arg_lenient(vars, classic, #[trigger] args[i].1) == Ok::<
                Val,
                crate::eval::Fail,
            >(vals[i]),
        forall|i: int| 0 <= i < vals.len() ==> !(#[trigger] vals[i] is Nothing),
    ensures
        bind_call(vars, classic, d, start(), args, args.len(), n) == Ok::<Binding, crate::eval::Fail>(
            Binding { locals: zipped(d.names, vals, n as int), next_pos: n, ..start() },
        ),
    decreases n,
{
    if n == 0 {
        assert(zipped(d.names, vals, 0) =~= Seq::<(Seq<char>, Val)>::empty());
    } else {
        lemma_bind_in_order(vars, classic, d, args, vals, (n - 1) as nat);
        let prev = zipped(d.names, vals, n - 1);
        let k = d.names[n - 1];
        assert(!has_key(prev, k)) by {
            if has_key(prev, k) {
                let j = choose|j: int| 0 <= j < prev.len() && #[trigger] prev[j].0 == k;
                assert(d.names[j] == k);
            }
        }
        assert(args[n - 1].0@.len() == 0);
        assert(!(vals[n - 1] is Nothing));
        assert(put(prev, k, vals[n - 1]) =~= zipped(d.names, vals, n as int));
    }
}

/// How a parameter shows in a definition's description: ` name`,
/// ` name=default` (the default described as an expression), and for the
/// catch-all parameter ` name...` when it has a default, ` name` when not.
pub open spec fn param_text(p: MacroParam) -> Seq<char> {
    if p.catch_all {
        " "@ + p.name@ + (if p.default is Some { "..."@ } else { Seq::empty() })
    } else {
        match p.default {
            Some(e) => " "@ + p.name@ + "="@ + crate::describe::desc(e),
            None => " "@ + p.name@,
        }
    }
}

/// The parameters of a definition, described one after the other.
pub open spec fn params_text(ps: Seq<MacroParam>) -> Seq<char>
    decreases ps.len(),
{
    if ps.len() == 0 {
        Seq::empty()
    } else {
        params_text(ps.drop_last()) + param_text(ps.last())
    }
}

/// A definition as the stack trace shows it: `#macro name` or
/// `#function name`, then its parameters.
pub open spec fn macro_description(def: MacroDef) -> Seq<char> {
    (if def.is_function { "#function"@ } else { "#macro"@ }) + " "@ + def.name@ + params_text(def.params@)
}

/// The description of a macro or function definition.
pub fn macro_def_description(def: &MacroDef) -> (r: String)
    ensures
        r@ == macro_description(*def),
{
    let mut s = if def.is_function {
        String::from_str("#function")
    } else {
        String::from_str("#macro")
    };
    push_str(&mut s, " ");
    push_str(&mut s, def.name.as_str());
    let ghost head = s@;
    let mut i: usize = 0;
    proof {
        assert(def.params@.take(0) =~= Seq::<MacroParam>::empty());
        assert(s@ =~= head + params_text(def.params@.take(0)));
    }
    while i < def.params.len()
        invariant
            i <= def.params@.len(),
            head == (if def.is_function { "#function"@ } else { "#macro"@ }) + " "@ + def.name@,
            s@ == head + params_text(def.params@.take(i as int)),
        decreases def.params.len() - i,
    {
        let p = &def.params[i];
        let ghost before = s@;
        push_str(&mut s, " ");
        push_str(&mut s, p.name.as_str());
        if p.catch_all {
            if p.default.is_some() {
                push_str(&mut s, "...");
            }
        } else {
            match &p.default {
                Some(e) => {
                    push_str(&mut s, "=");
                    let d = crate::describe::expr_desc(e);
                    push_str(&mut s, d.as_str());
                },
                None => {},
            }
        }
        proof {
            assert(def.params@.take(i as int + 1).drop_last() =~= def.params@.take(i as int));
            assert(def.params@.take(i as int + 1).last() == *p);
            assert(s@ =~= before + param_text(*p));
            assert(s@ =~= head + params_text(def.params@.take(i as int + 1)));
        }
        i += 1;
    }
    proof {
        assert(def.params@.take(i as int) =~= def.params@);
    }
    s
}

} // verus!
