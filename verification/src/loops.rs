//! The state of a `<#list>` loop: the items still to come, the loop
//! variables, and the built-ins on loop variables (`?index`, `?has_next`,
//! `?item_parity`, ...).
use vstd::prelude::*;
use crate::error::{is_misc, TemplateError};
use crate::number::TNumber;
use crate::text::{push_str, str_eq};
use crate::value::{TModel, Val};
use crate::ast::Expr;
use crate::eval::{all_evaluable, eval, eval_val, fail_of, Env, Fail};

verus! {

/// One item of a loop: the key (when listing a hash) and the value; `None`
/// is a null item.
pub struct LoopItem {
    pub key: Option<TModel>,
    pub value: Option<TModel>,
}

/// The value of an optional template value.
pub open spec fn opt_val(o: Option<TModel>) -> Option<Val> {
    match o {
        Some(m) => Some(m@),
        None => None,
    }
}

impl View for LoopItem {
    type V = (Option<Val>, Option<Val>);

    open spec fn view(&self) -> (Option<Val>, Option<Val>) {
        (opt_val(self.key), opt_val(self.value))
    }
}

/// A numeric range being listed: items `start, start±1, ...`, `index` of
/// them taken out of `cap`.
#[derive(Debug, Clone, Copy, PartialEq, Eq, Structural)]
pub struct RangeIterState {
    pub start: i64,
    pub index: usize,
    pub cap: usize,
    pub ascending: bool,
}

/// Item `i` of a listed range.
pub open spec fn range_iter_item(r: RangeIterState, i: int) -> int {
    if r.ascending {
        r.start + i
    } else {
        r.start - i
    }
}

/// A listed range is well formed when all its items are 64-bit integers.
pub open spec fn range_iter_wf(r: RangeIterState) -> bool {
    &&& r.index <= r.cap
    &&& (r.cap == 0 || i64::MIN <= range_iter_item(r, r.cap - 1) <= i64::MAX)
}

/// The items of a listed range still to come.
pub open spec fn range_rest(r: RangeIterState) -> Seq<(Option<Val>, Option<Val>)> {
    Seq::new(
        (r.cap - r.index) as nat,
        |k: int| (None, Some(Val::Number(TNumber::Long(range_iter_item(r, r.index + k) as i64)))),
    )
}

/// The items of a loop still to come: items already read, then the rest of
/// a listed range.
pub struct PendingItems {
    cache: Vec<LoopItem>,
    pos: usize,
    range: Option<RangeIterState>,
}

/// Views of loop items.
pub open spec fn items_view(s: Seq<LoopItem>) -> Seq<(Option<Val>, Option<Val>)> {
    Seq::new(s.len(), |i: int| s[i]@)
}

impl PendingItems {
    /// The items still to come.
    pub closed spec fn rest(&self) -> Seq<(Option<Val>, Option<Val>)> {
        items_view(self.cache@).skip(self.pos as int) + match self.range {
            Some(r) => range_rest(r),
            None => Seq::empty(),
        }
    }

    /// The pending items are consistent.
    pub closed spec fn wf(&self) -> bool {
        &&& self.pos <= self.cache.len()
        &&& (self.range matches Some(r) ==> range_iter_wf(r))
    }

    /// Pending items read ahead of time.
    pub fn eager(items: Vec<LoopItem>) -> (r: PendingItems)
        ensures
            r.wf(),
            r.rest() == items_view(items@),
    {
        let r = PendingItems { cache: items, pos: 0, range: None };
        proof {
            assert(items_view(r.cache@).skip(0) + Seq::<(Option<Val>, Option<Val>)>::empty()
                =~= items_view(r.cache@));
        }
        r
    }

    /// The pending items of a listed range.
    pub fn range(state: RangeIterState) -> (r: PendingItems)
        requires
            range_iter_wf(state),
        ensures
            r.wf(),
            r.rest() == range_rest(state),
    {
        let r = PendingItems { cache: Vec::new(), pos: 0, range: Some(state) };
        proof {
            assert(items_view(r.cache@).skip(0) =~= Seq::<(Option<Val>, Option<Val>)>::empty());
            assert(Seq::<(Option<Val>, Option<Val>)>::empty() + range_rest(state) =~= range_rest(
                state,
            ));
        }
        r
    }

    /// Takes the next item, if any.
    pub fn pop(&mut self) -> (r: Option<LoopItem>)
        requires
            old(self).wf(),
        ensures
            final(self).wf(),
            old(self).rest().len() == 0 ==> r is None && final(self).rest() == old(self).rest(),
            old(self).rest().len() > 0 ==> (r matches Some(item) && item@ == old(self).rest()[0]
                && final(self).rest() == old(self).rest().drop_first()),
    {
        if self.pos < self.cache.len() {
            let i = self.pos;
            let k = match &self.cache[i].key {
                Some(m) => Some(m.copy_model()),
                None => None,
            };
            let v = match &self.cache[i].value {
                Some(m) => Some(m.copy_model()),
                None => None,
            };
            let item = LoopItem { key: k, value: v };
            self.pos = i + 1;
            proof {
                let c = items_view(self.cache@);
                assert(c.skip(i as int + 1) =~= c.skip(i as int).drop_first());
                assert(item@ == c[i as int]);
                assert(self.rest() =~= old(self).rest().drop_first());
            }
            return Some(item);
        }
        proof {
            assert(items_view(self.cache@).skip(self.pos as int) =~= Seq::<
                (Option<Val>, Option<Val>),
            >::empty());
        }
        match self.range {
            Some(r) => {
                if r.index < r.cap {
                    let v: i64 = if r.ascending {
                        (r.start as i128 + r.index as i128) as i64
                    } else {
                        (r.start as i128 - r.index as i128) as i64
                    };
                    let nr = RangeIterState { index: r.index + 1, ..r };
                    self.range = Some(nr);
                    proof {
                        assert(range_rest(nr) =~= range_rest(r).drop_first());
                        assert(self.rest() =~= old(self).rest().drop_first());
                    }
                    return Some(LoopItem { key: None, value: Some(TModel::Number(TNumber::Long(v))) });
                }
                proof {
                    assert(range_rest(r).len() == 0);
                }
                None
            },
            None => None,
        }
    }

    /// Whether an item is still to come.
    pub fn has_next(&self) -> (r: bool)
        requires
            self.wf(),
        ensures
            r == (self.rest().len() > 0),
    {
        if self.pos < self.cache.len() {
            return true;
        }
        match self.range {
            Some(r) => r.index < r.cap,
            None => false,
        }
    }
}

/// The state of a loop.
pub struct LoopCtx {
    /// Name of the loop variable (empty while it is not visible).
    pub var_name: String,
    /// Name of the second loop variable (`as k, v`).
    pub var2_name: Option<String>,
    /// The current value (`None` for a null item).
    pub value: Option<TModel>,
    /// The current key when listing a hash.
    pub key: Option<TModel>,
    /// 0-based index of the current item.
    pub index: usize,
    /// Whether another item follows.
    pub has_next: bool,
    /// The items still to come.
    pub pending: PendingItems,
    /// Whether `<#items>` was entered.
    pub items_entered: bool,
}

/// The value of a loop variable seen through the null fallback: a null
/// item is missing (`None`) when falling back to outer scopes, else null.
pub open spec fn loop_var_value(v: Option<Val>, fallback: bool) -> Option<Val> {
    match v {
        Some(m) => if !(m is Nothing) {
            Some(m)
        } else if fallback {
            None
        } else {
            Some(Val::Nothing)
        },
        None => if fallback {
            None
        } else {
            Some(Val::Nothing)
        },
    }
}

/// What a name means in a loop: the loop variable (the key when listing a
/// hash with two variables), the second variable, `<var>_index` and
/// `<var>_has_next`; `None` for other names.
pub open spec fn loop_lookup(
    var_name: Seq<char>,
    var2: Option<Seq<char>>,
    value: Option<Val>,
    key: Option<Val>,
    index: int,
    has_next: bool,
    name: Seq<char>,
    fallback: bool,
) -> Option<Val> {
    if var_name.len() == 0 {
        None
    } else if name == var_name {
        loop_var_value(if var2 is Some { key } else { value }, fallback)
    } else if var2 matches Some(v2) && name == v2 {
        loop_var_value(value, fallback)
    } else if name == var_name + "_index"@ {
        Some(Val::Number(TNumber::Long(index as i64)))
    } else if name == var_name + "_has_next"@ {
        Some(Val::Boolean(has_next))
    } else {
        None
    }
}

fn loop_var_of(v: &Option<TModel>, fallback: bool) -> (r: Option<TModel>)
    ensures
        opt_val(r) == loop_var_value(opt_val(*v), fallback),
{
    match v {
        Some(m) => {
            if !m.is_nothing() {
                Some(m.copy_model())
            } else if fallback {
                None
            } else {
                Some(TModel::Nothing)
            }
        },
        None => if fallback {
            None
        } else {
            Some(TModel::Nothing)
        },
    }
}

impl LoopCtx {
    /// The value of `name` in this loop (`fallback` makes a null loop
    /// variable missing, so that outer scopes are searched).
    pub fn get(&self, name: &str, fallback_null_loop_var: bool) -> (r: Option<TModel>)
        requires
            self.index < i64::MAX,
        ensures
            opt_val(r) == loop_lookup(
                self.var_name@,
                match self.var2_name {
                    Some(v) => Some(v@),
                    None => None,
                },
                opt_val(self.value),
                opt_val(self.key),
                self.index as int,
                self.has_next,
                name@,
                fallback_null_loop_var,
            ),
    {
        let vn = self.var_name.as_str();
        let unnamed = str_eq(vn, "");
        proof {
            reveal_strlit("");
            assert(""@ =~= Seq::<char>::empty());
            assert(vn@ == self.var_name@);
        }
        if unnamed {
            return None;
        }
        proof {
            if self.var_name@.len() == 0 {
                assert(vn@ =~= Seq::<char>::empty());
            }
        }
        if str_eq(name, self.var_name.as_str()) {
            return match &self.var2_name {
                Some(_) => loop_var_of(&self.key, fallback_null_loop_var),
                None => loop_var_of(&self.value, fallback_null_loop_var),
            };
        }
        match &self.var2_name {
            Some(v2) => {
                if str_eq(name, v2.as_str()) {
                    return loop_var_of(&self.value, fallback_null_loop_var);
                }
            },
            None => {},
        }
        let mut idx_name = self.var_name.clone();
        push_str(&mut idx_name, "_index");
        if str_eq(name, idx_name.as_str()) {
            return Some(TModel::Number(TNumber::Long(self.index as i64)));
        }
        let mut next_name = self.var_name.clone();
        push_str(&mut next_name, "_has_next");
        if str_eq(name, next_name.as_str()) {
            return Some(TModel::Boolean(self.has_next));
        }
        None
    }
}

/// `?item_parity` of the item at a 0-based index: `odd` for the 1st, 3rd,
/// ... item.
pub open spec fn parity_text(index: int, cap: bool) -> Seq<char> {
    if index % 2 == 0 {
        if cap {
            "Odd"@
        } else {
            "odd"@
        }
    } else {
        if cap {
            "Even"@
        } else {
            "even"@
        }
    }
}

/// `?item_parity` of the item at a 0-based index.
pub fn item_parity(index: usize) -> (r: String)
    ensures
        r@ == parity_text(index as int, false),
{
    if index % 2 == 0 {
        String::from_str("odd")
    } else {
        String::from_str("even")
    }
}

/// `?item_parity_cap` of the item at a 0-based index.
pub fn item_parity_cap(index: usize) -> (r: String)
    ensures
        r@ == parity_text(index as int, true),
{
    if index % 2 == 0 {
        String::from_str("Odd")
    } else {
        String::from_str("Even")
    }
}

/// Whether a built-in's name is one of those on loop variables.
pub open spec fn is_loop_builtin(name: Seq<char>) -> bool {
    name == "index"@ || name == "counter"@ || name == "has_next"@ || name == "has_previous"@ || name
        == "is_first"@ || name == "is_last"@ || name == "is_odd"@ || name == "is_even"@ || name
        == "is_odd_item"@ || name == "is_even_item"@ || name == "item_parity"@ || name
        == "item_parity_cap"@ || name == "item_cycle"@
}

/// Message of `?item_cycle` without arguments.
pub open spec fn item_cycle_args_msg() -> Seq<char> {
    "The ?itemCycle built-in requires at least one argument."@
}

/// `?item_cycle(a, b, ...)` on the item at `index`: the argument at `index`
/// modulo their number, evaluated; a null value is missing.
pub open spec fn item_cycle_val(vars: Seq<(Seq<char>, Val)>, classic: bool, args: Seq<Expr>, index: int) -> Result<
    Val,
    Fail,
> {
    if args.len() == 0 {
        Err(Fail::Msg(item_cycle_args_msg()))
    } else {
        let a = args[index % args.len() as int];
        match eval_val(vars, classic, a) {
            Err(f) => Err(f),
            Ok(v) => if v is Nothing {
                Err(Fail::Missing(crate::describe::desc(a)))
            } else {
                Ok(v)
            },
        }
    }
}

/// The value of a built-in on a loop variable, for the item at `index`
/// (`has_next` when another follows).
pub open spec fn loop_builtin_value(name: Seq<char>, index: int, has_next: bool) -> Val {
    if name == "index"@ {
        Val::Number(TNumber::Long(index as i64))
    } else if name == "counter"@ {
        Val::Number(TNumber::Long((index + 1) as i64))
    } else if name == "has_next"@ {
        Val::Boolean(has_next)
    } else if name == "has_previous"@ {
        Val::Boolean(index > 0)
    } else if name == "is_first"@ {
        Val::Boolean(index == 0)
    } else if name == "is_last"@ {
        Val::Boolean(!has_next)
    } else if name == "is_odd"@ {
        Val::Boolean(index % 2 == 1)
    } else if name == "is_even"@ {
        Val::Boolean(index % 2 == 0)
    } else if name == "is_odd_item"@ {
        Val::Boolean((index + 1) % 2 == 1)
    } else if name == "is_even_item"@ {
        Val::Boolean((index + 1) % 2 == 0)
    } else if name == "item_parity"@ {
        Val::Scalar(parity_text(index, false))
    } else {
        Val::Scalar(parity_text(index, true))
    }
}

/// Message of a loop built-in whose target is no loop variable.
pub open spec fn not_loop_var_msg(name: Seq<char>) -> Seq<char> {
    "The target of ?"@ + name + " is not a loop variable (no enclosing loop in scope)"@
}

/// A built-in on a loop variable (`?index`, `?counter`, `?has_next`,
/// `?is_first`, `?item_parity`, ...): `None` for other built-ins; an error
/// when the target is no loop variable (`ctx` is `None`).
pub fn loop_state_builtin(name: &str, ctx: Option<&LoopCtx>, env: &Env, args: &Vec<Expr>) -> (r: Result<
    Option<TModel>,
    TemplateError,
>)
    requires
        ctx is Some ==> ctx.unwrap().index < i64::MAX - 1,
        env.wf(),
        name@ == "item_cycle"@ ==> all_evaluable(args@),
    ensures
        !is_loop_builtin(name@) ==> r == Ok::<Option<TModel>, TemplateError>(None),
        is_loop_builtin(name@) && ctx is None ==> (r matches Err(e) && is_misc(
            e,
            not_loop_var_msg(name@),
        )),
        is_loop_builtin(name@) && name@ != "item_cycle"@ && ctx is Some ==> (r matches Ok(Some(v)) && v@
            == loop_builtin_value(name@, ctx.unwrap().index as int, ctx.unwrap().has_next)),
        name@ == "item_cycle"@ && ctx is Some ==> match item_cycle_val(
            env.vars_view(),
            env.classic_compatible,
            args@,
            ctx.unwrap().index as int,
        ) {
            Ok(v) => r matches Ok(Some(m)) && m@ == v,
            Err(f) => r matches Err(x) && fail_of(x) == f,
        },
{
    let known = str_eq(name, "index") || str_eq(name, "counter") || str_eq(name, "has_next")
        || str_eq(name, "has_previous") || str_eq(name, "is_first") || str_eq(name, "is_last")
        || str_eq(name, "is_odd") || str_eq(name, "is_even") || str_eq(name, "is_odd_item")
        || str_eq(name, "is_even_item") || str_eq(name, "item_parity") || str_eq(
        name,
        "item_parity_cap",
    ) || str_eq(name, "item_cycle");
    if !known {
        return Ok(None);
    }
    let c = match ctx {
        Some(c) => c,
        None => {
            let mut m = String::from_str("The target of ?");
            push_str(&mut m, name);
            push_str(&mut m, " is not a loop variable (no enclosing loop in scope)");
            return Err(TemplateError::misc(m));
        },
    };
    let i = c.index;
    if str_eq(name, "item_cycle") {
        if args.len() == 0 {
            return Err(TemplateError::misc(
                String::from_str("The ?itemCycle built-in requires at least one argument."),
            ));
        }
        let k = i % args.len();
        proof {
            crate::eval::lemma_all_evaluable(args@, k as int);
        }
        let m = eval(env, &args[k])?;
        if m.is_nothing() {
            return Err(TemplateError::invalid_reference(crate::describe::expr_desc(&args[k])));
        }
        return Ok(Some(m));
    }
    let v = if str_eq(name, "index") {
        TModel::Number(TNumber::Long(i as i64))
    } else if str_eq(name, "counter") {
        TModel::Number(TNumber::Long(i as i64 + 1))
    } else if str_eq(name, "has_next") {
        TModel::Boolean(c.has_next)
    } else if str_eq(name, "has_previous") {
        TModel::Boolean(i > 0)
    } else if str_eq(name, "is_first") {
        TModel::Boolean(i == 0)
    } else if str_eq(name, "is_last") {
        TModel::Boolean(!c.has_next)
    } else if str_eq(name, "is_odd") {
        TModel::Boolean(i % 2 == 1)
    } else if str_eq(name, "is_even") {
        TModel::Boolean(i % 2 == 0)
    } else if str_eq(name, "is_odd_item") {
        TModel::Boolean(i % 2 == 0)
    } else if str_eq(name, "is_even_item") {
        TModel::Boolean(i % 2 == 1)
    } else if str_eq(name, "item_parity") {
        TModel::Scalar(item_parity(i))
    } else {
        TModel::Scalar(item_parity_cap(i))
    };
    Ok(Some(v))
}

/// `?item_cycle(a, b, ...)` at the item of 0-based `index`: the argument at
/// `index` modulo their number.
pub fn item_cycle(index: usize, args: &Vec<TModel>) -> (r: Result<TModel, TemplateError>)
    ensures
        args.len() == 0 ==> (r matches Err(e) && is_misc(e, "?item_cycle expects at least one argument"@)),
        args.len() > 0 ==> (r matches Ok(v) && v@ == args@[index as int % args.len() as int]@),
{
    if args.len() == 0 {
        return Err(TemplateError::misc(String::from_str("?item_cycle expects at least one argument")));
    }
    Ok(args[index % args.len()].copy_model())
}

} // verus!
