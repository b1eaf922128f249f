//! Built-ins on sequences: listing items, searching with loose equality,
//! chunking, joining, reversing, and conversion to a sequence.
use vstd::prelude::*;
use crate::error::{is_misc, TemplateError};
use crate::number::TNumber;
use crate::text::{chars_of, push_str};
use crate::value::{
    copy_items, lemma_vals_index, lemma_vals_len, lemma_vals_push, type_name_of, vals, RangeSpec,
    TModel, Val,
};

verus! {

/// Item `i` of a range.
pub open spec fn range_item(r: RangeSpec, i: int) -> int {
    if r.ascending {
        r.start + i
    } else {
        r.start - i
    }
}

/// A range is well formed when all its items are 64-bit integers, and a
/// right-unbounded range goes upward (and its first 2^31 items are 64-bit
/// integers).
pub open spec fn range_wf(r: RangeSpec) -> bool {
    &&& (r.unbounded ==> r.ascending && r.start <= i64::MAX - 2147483647)
    &&& (r.unbounded || r.count == 0 || (i64::MIN <= range_item(r, r.count - 1) <= i64::MAX))
}

/// The items of a bounded range.
pub open spec fn range_items(r: RangeSpec) -> Seq<Val> {
    Seq::new(r.count as nat, |i: int| Val::Number(TNumber::Long(range_item(r, i) as i64)))
}

/// The keys of a hash's entries are distinct.
pub open spec fn keys_distinct(es: Seq<(Seq<char>, Val)>) -> bool {
    forall|i: int, j: int| 0 <= i < j < es.len() ==> #[trigger] es[i].0 != #[trigger] es[j].0
}

/// A value is well formed: its numbers are well formed, its ranges have
/// 64-bit items and its hashes distinct keys, down through its items and
/// entries.
pub open spec fn val_ok(v: Val) -> bool
    decreases v,
{
    match v {
        Val::Number(n) => n.wf(),
        Val::Range(r) => range_wf(r),
        Val::Sequence(s) => forall|i: int| 0 <= i < s.len() ==> val_ok(#[trigger] s[i]),
        Val::Collection(s) => forall|i: int| 0 <= i < s.len() ==> val_ok(#[trigger] s[i]),
        Val::Hash(es) => keys_distinct(es) && forall|i: int| 0 <= i < es.len() ==> val_ok(#[trigger] es[i].1),
        _ => true,
    }
}

/// The items of a well-formed value are well formed.
pub proof fn lemma_val_ok_items(v: Val)
    requires
        val_ok(v),
    ensures
        range_ok(v),
        num_ok(v),
        listable_items(v) matches Some(items) ==> (forall|i: int|
            0 <= i < items.len() ==> val_ok(#[trigger] items[i])),
        listable_items(v) matches Some(items) ==> all_num_ok(items),
{
    match listable_items(v) {
        Some(items) => {
            assert forall|i: int| 0 <= i < items.len() implies val_ok(#[trigger] items[i]) by {
                match v {
                    Val::Range(r) => {
                        assert(items[i] == Val::Number(TNumber::Long(range_item(r, i) as i64)));
                    },
                    _ => {},
                }
            }
            assert forall|i: int| 0 <= i < items.len() implies num_ok(#[trigger] items[i]) by {
                assert(val_ok(items[i]));
            }
        },
        None => {},
    }
}

/// A value that is a range has 64-bit items.
pub open spec fn range_ok(v: Val) -> bool {
    v matches Val::Range(rs) ==> range_wf(rs)
}

/// Items of a value that is a sequence (a list or a bounded range).
pub open spec fn seq_items(v: Val) -> Option<Seq<Val>> {
    match v {
        Val::Sequence(s) => Some(s),
        Val::Range(r) => if r.unbounded { None } else { Some(range_items(r)) },
        _ => None,
    }
}

/// Items of a value that can be listed: a sequence or a collection.
pub open spec fn listable_items(v: Val) -> Option<Seq<Val>> {
    match v {
        Val::Collection(s) => Some(s),
        _ => seq_items(v),
    }
}

/// Message of a built-in applied to a value of the wrong type.
pub open spec fn not_applicable_msg(bi: Seq<char>, v: Val) -> Seq<char> {
    "?"@ + bi + " is not applicable to a "@ + type_name_of(v) + " value"@
}

/// Message of a built-in applied to a right-unbounded range.
pub open spec fn unbounded_range_msg() -> Seq<char> {
    "The input sequence is a right-unbounded numerical range, thus, it's infinitely long, and can't processed with this built-in."@
}

/// Whether a value is a right-unbounded range.
pub open spec fn is_unbounded_range(v: Val) -> bool {
    v matches Val::Range(r) && r.unbounded
}

/// Error of a built-in that needs items of a value that has none to give.
pub open spec fn items_error(bi: Seq<char>, v: Val) -> Seq<char> {
    if is_unbounded_range(v) {
        unbounded_range_msg()
    } else {
        not_applicable_msg(bi, v)
    }
}

/// The error of a built-in that needs items of a value that has none to give.
pub fn not_applicable(bi: &str, m: &TModel) -> (e: TemplateError)
    ensures
        is_misc(e, items_error(bi@, m@)),
{
    match m {
        TModel::Range(r) => {
            if r.unbounded {
                return TemplateError::misc(String::from_str(
                    "The input sequence is a right-unbounded numerical range, thus, it's infinitely long, and can't processed with this built-in.",
                ));
            }
        },
        _ => {},
    }
    let mut s = String::from_str("?");
    push_str(&mut s, bi);
    push_str(&mut s, " is not applicable to a ");
    push_str(&mut s, m.kind_name());
    push_str(&mut s, " value");
    TemplateError::misc(s)
}

/// The items of a bounded range.
pub fn range_values(r: &RangeSpec) -> (v: Vec<TModel>)
    requires
        range_wf(*r),
        !r.unbounded,
    ensures
        vals(v@) == range_items(*r),
{
    let mut v: Vec<TModel> = Vec::new();
    let mut i: usize = 0;
    while i < r.count
        invariant
            range_wf(*r),
            !r.unbounded,
            i <= r.count,
            vals(v@) == range_items(*r).take(i as int),
        decreases r.count - i,
    {
        assert(i64::MIN <= range_item(*r, i as int) <= i64::MAX);
        let x: i64 = if r.ascending {
            (r.start as i128 + i as i128) as i64
        } else {
            (r.start as i128 - i as i128) as i64
        };
        let m = TModel::Number(TNumber::Long(x));
        proof {
            lemma_vals_push(v@, m);
            assert(range_items(*r).take(i as int + 1) =~= range_items(*r).take(i as int).push(m@));
        }
        v.push(m);
        i += 1;
    }
    assert(range_items(*r).take(i as int) =~= range_items(*r));
    v
}

/// Items of a sequence value (a list or a bounded range); other values give
/// the built-in's "not applicable" error.
pub fn sequence_items(m: &TModel, bi: &str) -> (r: Result<Vec<TModel>, TemplateError>)
    requires
        crate::sequences::range_ok(m@),
    ensures
        match seq_items(m@) {
            Some(items) => r matches Ok(v) && vals(v@) == items,
            None => r matches Err(e) && is_misc(e, items_error(bi@, m@)),
        },
{
    match m {
        TModel::Sequence(v) => Ok(copy_items(v)),
        TModel::Range(rs) => {
            if rs.unbounded {
                Err(not_applicable(bi, m))
            } else {
                Ok(range_values(rs))
            }
        },
        _ => Err(not_applicable(bi, m)),
    }
}

/// Items of a sequence or a collection (a sequence is preferred).
pub fn seq_or_collection_items(m: &TModel, bi: &str) -> (r: Result<Vec<TModel>, TemplateError>)
    requires
        crate::sequences::range_ok(m@),
    ensures
        match listable_items(m@) {
            Some(items) => r matches Ok(v) && vals(v@) == items,
            None => r matches Err(e) && is_misc(e, items_error(bi@, m@)),
        },
{
    match m {
        TModel::Collection(v) => Ok(copy_items(v)),
        _ => sequence_items(m, bi),
    }
}

} // verus!

verus! {

/// Text of a string-like value (a string or markup).
pub open spec fn scalar_text(v: Val) -> Option<Seq<char>> {
    match v {
        Val::Scalar(s) => Some(s),
        Val::Markup { markup, .. } => Some(markup),
        _ => None,
    }
}

/// Message of comparing a date of unknown kind; `side` is `left` or `right`.
pub open spec fn unknown_date_msg(side: Seq<char>) -> Seq<char> {
    "The "@ + side
        + " value of the comparison is a date-like value where it's not known if it's a date (no time part), time, or date-time, and thus can't be used in a comparison."@
}

/// Message of comparing dates of different kinds.
pub open spec fn date_kinds_msg(l: crate::value::DateType, r: crate::value::DateType) -> Seq<char> {
    "Can't compare dates of different types. Left date type is "@
        + crate::value::date_type_name(l) + ", right date type is "@
        + crate::value::date_type_name(r) + "."@
}

/// Loose equality used by sequence searches: a missing value equals nothing;
/// numbers compare by value, strings by text, booleans by value, dates of the
/// same known kind by instant (other date pairs are an error); values of
/// different types are not equal.
pub open spec fn loose_eq(a: Val, b: Val) -> Result<bool, Seq<char>> {
    if a is Nothing || b is Nothing {
        Ok(false)
    } else if a is Number && b is Number {
        Ok(a->Number_0.num_eq(b->Number_0))
    } else if a is Date && b is Date {
        let ld = a->Date_0;
        let rd = b->Date_0;
        if ld.kind == crate::value::DateType::Unknown {
            Err(unknown_date_msg("left"@))
        } else if rd.kind == crate::value::DateType::Unknown {
            Err(unknown_date_msg("right"@))
        } else if ld.kind != rd.kind {
            Err(date_kinds_msg(ld.kind, rd.kind))
        } else {
            Ok(ld.millis == rd.millis)
        }
    } else if scalar_text(a) is Some && scalar_text(b) is Some {
        Ok(scalar_text(a) == scalar_text(b))
    } else if a is Boolean && b is Boolean {
        Ok(a->Boolean_0 == b->Boolean_0)
    } else {
        Ok(false)
    }
}

/// A comparison error with the index of the sequence item.
pub open spec fn item_compare_msg(i: int, m: Seq<char>) -> Seq<char> {
    "This error has occurred when comparing sequence item at 0-based index "@
        + crate::text::decimal(i as nat) + " to the searched item:\n"@ + m
}

/// Loose equality of sequence item `i` and the searched value, with errors
/// carrying the item index.
pub open spec fn item_eq(i: int, a: Val, b: Val) -> Result<bool, Seq<char>> {
    match loose_eq(a, b) {
        Ok(x) => Ok(x),
        Err(m) => Err(item_compare_msg(i, m)),
    }
}

/// Numbers stored in values are well formed.
pub open spec fn num_ok(v: Val) -> bool {
    v matches Val::Number(n) ==> n.wf()
}

pub fn scalar_text_of(m: &TModel) -> (r: Option<&String>)
    ensures
        match scalar_text(m@) {
            Some(t) => r matches Some(s) && s@ == t,
            None => r is None,
        },
{
    match m {
        TModel::Scalar(s) => Some(s),
        TModel::Markup { markup, .. } => Some(markup),
        _ => None,
    }
}

/// The error of comparing a date of unknown kind on the given side.
pub fn unknown_date_error(side: &str) -> (e: TemplateError)
    ensures
        is_misc(e, unknown_date_msg(side@)),
{
    let mut s = String::from_str("The ");
    push_str(&mut s, side);
    push_str(&mut s, " value of the comparison is a date-like value where it's not known if it's a date (no time part), time, or date-time, and thus can't be used in a comparison.");
    TemplateError::misc(s)
}

fn date_kinds_error(l: crate::value::DateType, r: crate::value::DateType) -> (e: TemplateError)
    ensures
        is_misc(e, date_kinds_msg(l, r)),
{
    let mut s = String::from_str("Can't compare dates of different types. Left date type is ");
    push_str(&mut s, crate::value::java_date_type_name(l));
    push_str(&mut s, ", right date type is ");
    push_str(&mut s, crate::value::java_date_type_name(r));
    push_str(&mut s, ".");
    TemplateError::misc(s)
}

fn loose_equal(a: &TModel, b: &TModel) -> (r: Result<bool, TemplateError>)
    requires
        num_ok(a@),
        num_ok(b@),
    ensures
        match loose_eq(a@, b@) {
            Ok(x) => r == Ok::<bool, TemplateError>(x),
            Err(m) => r matches Err(e) && is_misc(e, m),
        },
{
    if a.is_nothing() || b.is_nothing() {
        return Ok(false);
    }
    match (a, b) {
        (TModel::Number(x), TModel::Number(y)) => {
            return Ok(crate::number::numbers_equal(x, y));
        },
        (TModel::Date(ld), TModel::Date(rd)) => {
            if ld.kind == crate::value::DateType::Unknown {
                return Err(unknown_date_error("left"));
            }
            if rd.kind == crate::value::DateType::Unknown {
                return Err(unknown_date_error("right"));
            }
            if ld.kind != rd.kind {
                return Err(date_kinds_error(ld.kind, rd.kind));
            }
            return Ok(ld.millis == rd.millis);
        },
        _ => {},
    }
    match (scalar_text_of(a), scalar_text_of(b)) {
        (Some(x), Some(y)) => {
            return Ok(crate::text::str_eq(x.as_str(), y.as_str()));
        },
        _ => {},
    }
    match (a, b) {
        (TModel::Boolean(x), TModel::Boolean(y)) => Ok(*x == *y),
        _ => Ok(false),
    }
}

/// Loose equality of sequence item `seq_item_index` and the searched value;
/// a comparison error names the item index.
pub fn models_equal(seq_item_index: usize, seq_item: &TModel, searched: &TModel) -> (r: Result<
    bool,
    TemplateError,
>)
    requires
        num_ok(seq_item@),
        num_ok(searched@),
    ensures
        match item_eq(seq_item_index as int, seq_item@, searched@) {
            Ok(x) => r == Ok::<bool, TemplateError>(x),
            Err(m) => r matches Err(e) && is_misc(e, m),
        },
{
    match loose_equal(seq_item, searched) {
        Ok(x) => Ok(x),
        Err(e) => {
            let mut s = String::from_str(
                "This error has occurred when comparing sequence item at 0-based index ",
            );
            let idx = crate::text::usize_text(seq_item_index);
            push_str(&mut s, idx.as_str());
            push_str(&mut s, " to the searched item:\n");
            match e {
                TemplateError::Misc { message } => push_str(&mut s, message.as_str()),
                _ => {},
            }
            Err(TemplateError::misc(s))
        },
    }
}

} // verus!

verus! {

/// Numbers in all items are well formed.
pub open spec fn all_num_ok(s: Seq<Val>) -> bool {
    forall|i: int| 0 <= i < s.len() ==> num_ok(#[trigger] s[i])
}

/// Forward search from index `i`: the first item loosely equal to `x`, or -1.
pub open spec fn scan_forward(items: Seq<Val>, x: Val, i: int) -> Result<int, Seq<char>>
    decreases items.len() - i,
{
    if i < 0 || i >= items.len() {
        Ok(-1)
    } else {
        match item_eq(i, items[i], x) {
            Err(m) => Err(m),
            Ok(true) => Ok(i),
            Ok(false) => scan_forward(items, x, i + 1),
        }
    }
}

/// Backward search from index `i` down to 0.
pub open spec fn scan_backward(items: Seq<Val>, x: Val, i: int) -> Result<int, Seq<char>>
    decreases i + 1,
{
    if i < 0 || i >= items.len() {
        Ok(-1)
    } else {
        match item_eq(i, items[i], x) {
            Err(m) => Err(m),
            Ok(true) => Ok(i),
            Ok(false) => scan_backward(items, x, i - 1),
        }
    }
}

/// Result of `?seq_index_of` (`find_first`) or `?seq_last_index_of` with an
/// optional start index: a negative start searches forward from 0, or finds
/// nothing backward; a start past the end finds nothing forward, or searches
/// backward from the last item.
pub open spec fn index_of_result(items: Seq<Val>, x: Val, from: Option<int>, find_first: bool) -> Result<
    int,
    Seq<char>,
> {
    if find_first {
        let start = match from {
            Some(f) => if f < 0 { 0 } else { f },
            None => 0,
        };
        scan_forward(items, x, start)
    } else {
        let f = match from {
            Some(f) => f,
            None => items.len() - 1,
        };
        if f < 0 {
            Ok(-1)
        } else {
            let s = if f > items.len() - 1 { items.len() - 1 } else { f };
            scan_backward(items, x, if s < 0 { 0 } else { s })
        }
    }
}

/// Message of a built-in method argument that should be a number.
pub open spec fn number_arg_msg(bi: Seq<char>, idx: int, v: Val) -> Seq<char> {
    "?"@ + bi + "(...) expects a number as argument #"@ + crate::text::decimal((idx + 1) as nat)
        + ", but received "@ + crate::value::type_desc(v) + "."@
}

/// The number a built-in method argument holds.
pub fn method_number_arg(arg: &TModel, idx: usize, bi: &str) -> (r: Result<TNumber, TemplateError>)
    requires
        idx < usize::MAX,
    ensures
        match arg@ {
            Val::Number(n) => r == Ok::<TNumber, TemplateError>(n),
            _ => r matches Err(e) && is_misc(e, number_arg_msg(bi@, idx as int, arg@)),
        },
{
    match arg {
        TModel::Number(n) => Ok(*n),
        _ => {
            let mut s = String::from_str("?");
            push_str(&mut s, bi);
            push_str(&mut s, "(...) expects a number as argument #");
            let num = crate::text::usize_text(idx + 1);
            push_str(&mut s, num.as_str());
            push_str(&mut s, ", but received ");
            let d = crate::value::ftl_type_desc(arg);
            push_str(&mut s, d.as_str());
            push_str(&mut s, ".");
            Err(TemplateError::misc(s))
        },
    }
}

/// The start index given by an optional argument (truncated toward zero).
pub open spec fn from_index(from_arg: Option<Val>) -> Option<int> {
    match from_arg {
        Some(Val::Number(n)) => Some(n.truncated()),
        _ => None,
    }
}

/// The view of an optional argument.
pub open spec fn opt_val(o: Option<&TModel>) -> Option<Val> {
    match o {
        Some(f) => Some(f@),
        None => None,
    }
}

/// Whether an optional argument is given and is not a number.
pub open spec fn non_number_arg(o: Option<Val>) -> bool {
    match o {
        Some(v) => !(v is Number),
        None => false,
    }
}

/// `?seq_index_of(x[, from])` / `?seq_last_index_of(x[, from])` on the
/// listed items: index of the first (last) item loosely equal to `searched`,
/// or -1.  A start argument that is not a number is an error.
pub fn seq_index_of_impl(
    items: &Vec<TModel>,
    searched: &TModel,
    from_arg: Option<&TModel>,
    find_first: bool,
) -> (r: Result<i64, TemplateError>)
    requires
        all_num_ok(vals(items@)),
        num_ok(searched@),
        from_arg matches Some(f) ==> num_ok(f@),
    ensures
        non_number_arg(opt_val(from_arg)) ==> (r matches Err(e) && is_misc(
            e,
            number_arg_msg(
                if find_first { "seq_index_of"@ } else { "seq_last_index_of"@ },
                1,
                opt_val(from_arg).unwrap(),
            ),
        )),
        !non_number_arg(opt_val(from_arg)) ==> match index_of_result(
            vals(items@),
            searched@,
            from_index(opt_val(from_arg)),
            find_first,
        ) {
            Ok(i) => r == Ok::<i64, TemplateError>(i as i64),
            Err(m) => r matches Err(e) && is_misc(e, m),
        },
{
    let bi = if find_first { "seq_index_of" } else { "seq_last_index_of" };
    let ghost iv = vals(items@);
    proof {
        lemma_vals_len(items@);
    }
    let n: i128 = items.len() as i128;
    let from: i128 = match from_arg {
        Some(f) => {
            let num = method_number_arg(f, 1, bi)?;
            match crate::number::trunc_i64(&num) {
                Some(v) => v as i128,
                None => 0,
            }
        },
        None => if find_first { 0 } else { n - 1 },
    };
    if find_first {
        if from >= n {
            return Ok(-1);
        }
        let mut i: usize = if from < 0 { 0 } else { from as usize };
        while i < items.len()
            invariant
                n == iv.len(),
                n == items@.len(),
                iv == vals(items@),
                !non_number_arg(opt_val(from_arg)),
                all_num_ok(iv),
                num_ok(searched@),
                find_first,
                i <= iv.len(),
                scan_forward(iv, searched@, i as int) == index_of_result(
                    iv,
                    searched@,
                    from_index(opt_val(from_arg)),
                    true,
                ),
            decreases iv.len() - i,
        {
            proof {
                lemma_vals_index(items@, i as int);
            }
            let eq = models_equal(i, &items[i], searched)?;
            if eq {
                return Ok(i as i64);
            }
            i += 1;
        }
        Ok(-1)
    } else {
        if from < 0 {
            return Ok(-1);
        }
        let s: i128 = if from > n - 1 { n - 1 } else { from };
        if s < 0 {
            return Ok(-1);
        }
        let mut i: usize = s as usize;
        loop
            invariant
                n == iv.len(),
                n == items@.len(),
                iv == vals(items@),
                !non_number_arg(opt_val(from_arg)),
                all_num_ok(iv),
                num_ok(searched@),
                !find_first,
                i < iv.len(),
                scan_backward(iv, searched@, i as int) == index_of_result(
                    iv,
                    searched@,
                    from_index(opt_val(from_arg)),
                    false,
                ),
            decreases i,
        {
            proof {
                lemma_vals_index(items@, i as int);
            }
            let eq = models_equal(i, &items[i], searched)?;
            if eq {
                return Ok(i as i64);
            }
            if i == 0 {
                assert(scan_backward(iv, searched@, -1) == Ok::<int, Seq<char>>(-1));
                return Ok(-1);
            }
            i -= 1;
        }
    }
}

} // verus!
