//! Built-ins on the items of a sequence: `?size`, `?first`, `?last`,
//! `?reverse`, `?sequence`, `?seq_contains`, `?chunk` and `?join`.
use vstd::prelude::*;
use crate::error::{is_misc, TemplateError};
use crate::number::TNumber;
use crate::sequences::{
    all_num_ok, item_eq, items_error, listable_items, models_equal, num_ok, scalar_text,
    scalar_text_of, scan_forward, seq_items, seq_or_collection_items, sequence_items, range_wf,
};
use crate::text::push_str;
use crate::value::{copy_items, lemma_vals_index, lemma_vals_len, lemma_vals_push, vals, TModel, Val};

verus! {

/// Items of a value are well formed: ranges have 64-bit items and numbers
/// are well formed.
pub open spec fn items_ok(v: Val) -> bool {
    &&& crate::sequences::range_ok(v)
    &&& (listable_items(v) matches Some(items) ==> all_num_ok(items))
}

/// Result of `?size`: the number of items of a sequence, or of entries of a
/// hash.
pub open spec fn size_result(v: Val) -> Result<Val, Seq<char>> {
    match seq_items(v) {
        Some(items) => Ok(Val::Number(TNumber::Long(items.len() as i64))),
        None => match v {
            Val::Hash(es) => Ok(Val::Number(TNumber::Long(es.len() as i64))),
            _ => Err(items_error("size"@, v)),
        },
    }
}

/// `?size`.
pub fn size(m: &TModel) -> (r: Result<TModel, TemplateError>)
    requires
        crate::sequences::range_ok(m@),
    ensures
        match size_result(m@) {
            Ok(x) => r matches Ok(v) && v@ == x,
            Err(msg) => r matches Err(e) && is_misc(e, msg),
        },
{
    match m {
        TModel::Hash(es) => {
            proof {
                crate::value::lemma_entry_vals_len(es@);
            }
            Ok(TModel::Number(TNumber::Long(es.len() as i64)))
        },
        _ => {
            let items = sequence_items(m, "size")?;
            proof {
                lemma_vals_len(items@);
            }
            Ok(TModel::Number(TNumber::Long(items.len() as i64)))
        },
    }
}

/// A string of one character.
pub open spec fn char_string(c: char) -> Val {
    Val::Scalar(seq![c])
}

/// Result of `?first`: the first item of a sequence or collection (null when
/// it has none), or the first character of a string.
pub open spec fn first_result(v: Val) -> Result<Val, Seq<char>> {
    match listable_items(v) {
        Some(items) => Ok(
            if items.len() == 0 {
                Val::Nothing
            } else {
                items[0]
            },
        ),
        None => match scalar_text(v) {
            Some(s) => if s.len() == 0 {
                Err("The string is empty, ?first failed"@)
            } else {
                Ok(char_string(s[0]))
            },
            None => Err(items_error("first"@, v)),
        },
    }
}

/// Result of `?last`: the last item of a sequence (null when it has none),
/// or the last character of a string.
pub open spec fn last_result(v: Val) -> Result<Val, Seq<char>> {
    match seq_items(v) {
        Some(items) => Ok(
            if items.len() == 0 {
                Val::Nothing
            } else {
                items.last()
            },
        ),
        None => match scalar_text(v) {
            Some(s) => if s.len() == 0 {
                Err("The string is empty, ?last failed"@)
            } else {
                Ok(char_string(s.last()))
            },
            None => Err(items_error("last"@, v)),
        },
    }
}

fn one_char_string(c: char) -> (r: TModel)
    ensures
        r@ == char_string(c),
{
    let mut s = String::new();
    crate::text::push_char(&mut s, c);
    proof {
        assert(s@ =~= seq![c]);
    }
    TModel::Scalar(s)
}

/// `?first`.
pub fn first(m: &TModel) -> (r: Result<TModel, TemplateError>)
    requires
        crate::sequences::range_ok(m@),
    ensures
        match first_result(m@) {
            Ok(x) => r matches Ok(v) && v@ == x,
            Err(msg) => r matches Err(e) && is_misc(e, msg),
        },
{
    if let Some(s) = scalar_text_of(m) {
        let cs = crate::text::chars_of(s.as_str());
        if cs.len() == 0 {
            return Err(TemplateError::misc(String::from_str("The string is empty, ?first failed")));
        }
        return Ok(one_char_string(cs[0]));
    }
    let items = seq_or_collection_items(m, "first")?;
    proof {
        lemma_vals_len(items@);
    }
    if items.len() == 0 {
        Ok(TModel::Nothing)
    } else {
        proof {
            lemma_vals_index(items@, 0);
        }
        Ok(items[0].copy_model())
    }
}

/// `?last`.
pub fn last(m: &TModel) -> (r: Result<TModel, TemplateError>)
    requires
        crate::sequences::range_ok(m@),
    ensures
        match last_result(m@) {
            Ok(x) => r matches Ok(v) && v@ == x,
            Err(msg) => r matches Err(e) && is_misc(e, msg),
        },
{
    if let Some(s) = scalar_text_of(m) {
        let cs = crate::text::chars_of(s.as_str());
        if cs.len() == 0 {
            return Err(TemplateError::misc(String::from_str("The string is empty, ?last failed")));
        }
        return Ok(one_char_string(cs[cs.len() - 1]));
    }
    let items = sequence_items(m, "last")?;
    proof {
        lemma_vals_len(items@);
    }
    if items.len() == 0 {
        Ok(TModel::Nothing)
    } else {
        proof {
            lemma_vals_index(items@, items.len() - 1);
        }
        Ok(items[items.len() - 1].copy_model())
    }
}

/// Result of `?reverse`: the items of a sequence in reverse order, or the
/// characters of a string in reverse order.
pub open spec fn reverse_result(v: Val) -> Result<Val, Seq<char>> {
    match seq_items(v) {
        Some(items) => Ok(Val::Sequence(items.reverse())),
        None => match scalar_text(v) {
            Some(s) => Ok(Val::Scalar(s.reverse())),
            None => Err(items_error("reverse"@, v)),
        },
    }
}

/// `?reverse`.
pub fn reverse(m: &TModel) -> (r: Result<TModel, TemplateError>)
    requires
        crate::sequences::range_ok(m@),
    ensures
        match reverse_result(m@) {
            Ok(x) => r matches Ok(v) && v@ == x,
            Err(msg) => r matches Err(e) && is_misc(e, msg),
        },
{
    if let Some(s) = scalar_text_of(m) {
        let cs = crate::text::chars_of(s.as_str());
        let mut out = String::new();
        let mut i: usize = cs.len();
        while i > 0
            invariant
                i <= cs.len(),
                cs@ == s@,
                out@ == cs@.subrange(i as int, cs@.len() as int).reverse(),
            decreases i,
        {
            i -= 1;
            crate::text::push_char(&mut out, cs[i]);
            proof {
                assert(cs@.subrange(i as int, cs@.len() as int).reverse() =~= cs@.subrange(
                    i as int + 1,
                    cs@.len() as int,
                ).reverse().push(cs@[i as int]));
            }
        }
        proof {
            assert(cs@.subrange(0, cs@.len() as int) =~= cs@);
        }
        return Ok(TModel::Scalar(out));
    }
    let items = sequence_items(m, "reverse")?;
    proof {
        lemma_vals_len(items@);
    }
    let ghost iv = vals(items@);
    let mut out: Vec<TModel> = Vec::new();
    let mut i: usize = items.len();
    while i > 0
        invariant
            i <= items.len(),
            iv == vals(items@),
            iv.len() == items.len(),
            vals(out@) == iv.subrange(i as int, iv.len() as int).reverse(),
        decreases i,
    {
        i -= 1;
        proof {
            lemma_vals_index(items@, i as int);
        }
        let x = items[i].copy_model();
        proof {
            lemma_vals_push(out@, x);
            assert(iv.subrange(i as int, iv.len() as int).reverse() =~= iv.subrange(
                i as int + 1,
                iv.len() as int,
            ).reverse().push(iv[i as int]));
        }
        out.push(x);
    }
    proof {
        assert(iv.subrange(0, iv.len() as int) =~= iv);
    }
    Ok(TModel::Sequence(out))
}

/// The characters of a string, each as a one-character string.
pub open spec fn char_strings(s: Seq<char>) -> Seq<Val> {
    Seq::new(s.len(), |i: int| char_string(s[i]))
}

/// Result of `?sequence`: a sequence or collection is itself; a string gives
/// its characters.
pub open spec fn sequence_result(v: Val) -> Result<Val, Seq<char>> {
    match v {
        Val::Sequence(_) | Val::Collection(_) | Val::Range(_) => Ok(v),
        _ => match scalar_text(v) {
            Some(s) => Ok(Val::Sequence(char_strings(s))),
            None => Err(crate::sequences::not_applicable_msg("sequence"@, v)),
        },
    }
}

/// `?sequence`.
pub fn sequence(m: &TModel) -> (r: Result<TModel, TemplateError>)
    ensures
        match sequence_result(m@) {
            Ok(x) => r matches Ok(v) && v@ == x,
            Err(msg) => r matches Err(e) && is_misc(e, msg),
        },
{
    match m {
        TModel::Sequence(_) | TModel::Collection(_) | TModel::Range(_) => {
            return Ok(m.copy_model());
        },
        _ => {},
    }
    if let Some(s) = scalar_text_of(m) {
        let cs = crate::text::chars_of(s.as_str());
        let mut out: Vec<TModel> = Vec::new();
        let mut i: usize = 0;
        while i < cs.len()
            invariant
                i <= cs.len(),
                cs@ == s@,
                vals(out@) == char_strings(cs@).take(i as int),
            decreases cs.len() - i,
        {
            let x = one_char_string(cs[i]);
            proof {
                lemma_vals_push(out@, x);
                assert(char_strings(cs@).take(i as int + 1) =~= char_strings(cs@).take(
                    i as int,
                ).push(x@));
            }
            out.push(x);
            i += 1;
        }
        proof {
            assert(char_strings(cs@).take(cs@.len() as int) =~= char_strings(cs@));
        }
        return Ok(TModel::Sequence(out));
    }
    Err(crate::sequences::not_applicable("sequence", m))
}

/// Result of `?seq_contains(x)`: whether an item of the sequence or
/// collection is loosely equal to `x`.
pub open spec fn seq_contains_result(v: Val, x: Val) -> Result<bool, Seq<char>> {
    match listable_items(v) {
        Some(items) => match scan_forward(items, x, 0) {
            Ok(i) => Ok(i >= 0),
            Err(m) => Err(m),
        },
        None => Err(items_error("seq_contains"@, v)),
    }
}

/// `?seq_contains(x)`.
pub fn seq_contains(m: &TModel, needle: &TModel) -> (r: Result<bool, TemplateError>)
    requires
        items_ok(m@),
        num_ok(needle@),
    ensures
        match seq_contains_result(m@, needle@) {
            Ok(b) => r == Ok::<bool, TemplateError>(b),
            Err(msg) => r matches Err(e) && is_misc(e, msg),
        },
{
    let items = seq_or_collection_items(m, "seq_contains")?;
    proof {
        lemma_vals_len(items@);
    }
    let ghost iv = vals(items@);
    let mut i: usize = 0;
    while i < items.len()
        invariant
            i <= items.len(),
            iv == vals(items@),
            iv.len() == items.len(),
            all_num_ok(iv),
            num_ok(needle@),
            seq_contains_result(m@, needle@) == match scan_forward(iv, needle@, i as int) {
                Ok(j) => Ok(j >= 0),
                Err(msg) => Err::<bool, Seq<char>>(msg),
            },
        decreases items.len() - i,
    {
        proof {
            lemma_vals_index(items@, i as int);
        }
        let eq = models_equal(i, &items[i], needle)?;
        if eq {
            return Ok(true);
        }
        i += 1;
    }
    Ok(false)
}

/// Items padded with copies of `filler` up to `size` items.
pub open spec fn padded(items: Seq<Val>, size: nat, filler: Option<Val>) -> Seq<Val> {
    match filler {
        Some(f) => if items.len() < size {
            items + Seq::new((size - items.len()) as nat, |j: int| f)
        } else {
            items
        },
        None => items,
    }
}

/// The items cut into sequences of `size` items; the last one, when shorter,
/// is padded with `filler`.
pub open spec fn chunks(items: Seq<Val>, size: nat, filler: Option<Val>) -> Seq<Val>
    decreases items.len(),
{
    if size == 0 || items.len() == 0 {
        Seq::empty()
    } else if items.len() <= size {
        seq![Val::Sequence(padded(items, size, filler))]
    } else {
        seq![Val::Sequence(items.take(size as int))] + chunks(items.skip(size as int), size, filler)
    }
}

/// Message of a chunk size below one.
pub open spec fn chunk_size_msg() -> Seq<char> {
    "The 1st argument to ?chunk (...) must be at least 1."@
}

/// The filler of `?chunk`: a missing value means none.
pub open spec fn filler_of(filler: Option<Val>) -> Option<Val> {
    match filler {
        Some(Val::Nothing) => None,
        _ => filler,
    }
}

/// Result of `?chunk(size[, filler])`: the size is truncated toward zero
/// and must be at least 1; the target must be a sequence.
pub open spec fn chunk_result(v: Val, size_arg: Val, filler: Option<Val>) -> Result<Val, Seq<char>> {
    match size_arg {
        Val::Number(n) => if n.truncated() < 1 {
            Err(chunk_size_msg())
        } else {
            match seq_items(v) {
                Some(items) => Ok(
                    Val::Sequence(chunks(items, n.truncated() as nat, filler_of(filler))),
                ),
                None => Err(items_error("chunk"@, v)),
            }
        },
        _ => Err(crate::sequences::number_arg_msg("chunk"@, 0, size_arg)),
    }
}

/// Copies of `items[lo..hi]`, padded with copies of `filler` up to `size`.
fn chunk_of(items: &Vec<TModel>, lo: usize, hi: usize, size: u64, filler: Option<&TModel>) -> (r:
    Vec<TModel>)
    requires
        lo <= hi <= items.len(),
        hi - lo <= size,
    ensures
        vals(r@) == padded(
            vals(items@).subrange(lo as int, hi as int),
            size as nat,
            match filler {
                Some(f) => Some(f@),
                None => None,
            },
        ),
{
    proof {
        lemma_vals_len(items@);
    }
    let ghost iv = vals(items@);
    let mut out: Vec<TModel> = Vec::new();
    let mut i: usize = lo;
    while i < hi
        invariant
            lo <= i <= hi <= items.len(),
            iv == vals(items@),
            iv.len() == items.len(),
            vals(out@) == iv.subrange(lo as int, i as int),
        decreases hi - i,
    {
        proof {
            lemma_vals_index(items@, i as int);
        }
        let x = items[i].copy_model();
        proof {
            lemma_vals_push(out@, x);
            assert(iv.subrange(lo as int, i as int + 1) =~= iv.subrange(lo as int, i as int).push(
                x@,
            ));
        }
        out.push(x);
        i += 1;
    }
    proof {
        lemma_vals_len(out@);
    }
    let ghost base = vals(out@);
    match filler {
        Some(f) => {
            while (out.len() as u64) < size
                invariant
                    base.len() <= vals(out@).len(),
                    vals(out@).len() == out.len(),
                    vals(out@) == base + Seq::new((vals(out@).len() - base.len()) as nat, |j: int| f@),
                    base.len() <= size,
                    vals(out@).len() <= size,
                decreases size - out.len(),
            {
                let x = f.copy_model();
                proof {
                    lemma_vals_push(out@, x);
                    assert(base + Seq::new((vals(out@).len() + 1 - base.len()) as nat, |j: int| f@)
                        =~= vals(out@).push(x@));
                }
                out.push(x);
            }
            proof {
                assert(vals(out@).len() == size);
                if base.len() >= size {
                    assert(base + Seq::new(0, |j: int| f@) =~= base);
                }
            }
        },
        None => {},
    }
    out
}

/// `?chunk(size[, filler])`.
pub fn chunk(m: &TModel, size_arg: &TModel, filler: Option<&TModel>) -> (r: Result<TModel, TemplateError>)
    requires
        crate::sequences::range_ok(m@),
        num_ok(size_arg@),
    ensures
        match chunk_result(
            m@,
            size_arg@,
            match filler {
                Some(f) => Some(f@),
                None => None,
            },
        ) {
            Ok(x) => r matches Ok(v) && v@ == x,
            Err(msg) => r matches Err(e) && is_misc(e, msg),
        },
{
    let n = crate::sequences::method_number_arg(size_arg, 0, "chunk")?;
    let t = match crate::number::trunc_i64(&n) {
        Some(t) => t,
        None => i64::MAX,
    };
    if t < 1 {
        return Err(TemplateError::misc(String::from_str(
            "The 1st argument to ?chunk (...) must be at least 1.",
        )));
    }
    let size: u64 = t as u64;
    let fill: Option<&TModel> = match filler {
        Some(f) => if f.is_nothing() {
            None
        } else {
            Some(f)
        },
        None => None,
    };
    let ghost fv: Option<Val> = match fill {
        Some(f) => Some(f@),
        None => None,
    };
    assert(fv == filler_of(
        match filler {
            Some(f) => Some(f@),
            None => None,
        },
    ));
    let items = sequence_items(m, "chunk")?;
    proof {
        lemma_vals_len(items@);
    }
    let ghost iv = vals(items@);
    let mut out: Vec<TModel> = Vec::new();
    let mut i: usize = 0;
    proof {
        assert(iv.skip(0) =~= iv);
        assert(vals(out@) + chunks(iv, size as nat, fv) =~= chunks(iv, size as nat, fv));
    }
    while i < items.len()
        invariant
            i <= items.len(),
            iv == vals(items@),
            iv.len() == items.len(),
            size == t,
            t >= 1,
            fv == match fill {
                Some(f) => Some(f@),
                None => None,
            },
            vals(out@) + chunks(iv.skip(i as int), size as nat, fv) == chunks(
                iv,
                size as nat,
                fv,
            ),
        decreases items.len() - i,
    {
        let rest: usize = items.len() - i;
        let ghost tail = iv.skip(i as int);
        if (rest as u64) <= size {
            let c = chunk_of(&items, i, items.len(), size, fill);
            let cm = TModel::Sequence(c);
            proof {
                assert(iv.subrange(i as int, iv.len() as int) =~= tail);
                assert(chunks(tail, size as nat, fv) == seq![cm@]);
                lemma_vals_push(out@, cm);
                assert(iv.skip(items.len() as int) =~= Seq::<Val>::empty());
                assert(vals(out@.push(cm)) + chunks(iv.skip(items.len() as int), size as nat, fv)
                    =~= vals(out@) + chunks(tail, size as nat, fv));
            }
            out.push(cm);
            i = items.len();
        } else {
            let s: usize = size as usize;
            let c = chunk_of(&items, i, i + s, size, fill);
            let cm = TModel::Sequence(c);
            proof {
                assert(iv.subrange(i as int, (i + s) as int) =~= tail.take(s as int));
                assert(padded(tail.take(s as int), size as nat, fv) =~= tail.take(s as int));
                assert(tail.skip(s as int) =~= iv.skip((i + s) as int));
                assert(chunks(tail, size as nat, fv) == seq![cm@] + chunks(
                    iv.skip((i + s) as int),
                    size as nat,
                    fv,
                ));
                lemma_vals_push(out@, cm);
                assert(vals(out@.push(cm)) + chunks(iv.skip((i + s) as int), size as nat, fv)
                    =~= vals(out@) + chunks(tail, size as nat, fv));
            }
            out.push(cm);
            i = i + s;
        }
    }
    proof {
        assert(iv.skip(i as int) =~= Seq::<Val>::empty());
        assert(vals(out@) + Seq::<Val>::empty() =~= vals(out@));
    }
    Ok(TModel::Sequence(out))
}

/// An item of `?join` after its conversion to text: a null item is
/// skipped, and a conversion that failed carries its message.
pub enum JoinItem {
    Skip,
    Text(String),
    Failed(String),
}

/// Message of an item of `?join` whose conversion to text failed.
pub open spec fn join_failure_msg(idx: int, m: Seq<char>) -> Seq<char> {
    "\"?join\" failed at index "@ + crate::text::decimal(idx as nat)
        + " with this error:\n\n---begin-message---\n"@ + m + "\n---end-message---"@
}

/// The texts of the items joined by `sep` (`None` while no item was
/// joined), or the error of the first item that failed.
pub open spec fn join_acc(items: Seq<JoinItem>, sep: Seq<char>) -> Result<Option<Seq<char>>, Seq<char>>
    decreases items.len(),
{
    if items.len() == 0 {
        Ok(None)
    } else {
        match join_acc(items.drop_last(), sep) {
            Err(m) => Err(m),
            Ok(acc) => match items.last() {
                JoinItem::Skip => Ok(acc),
                JoinItem::Text(t) => Ok(
                    Some(
                        match acc {
                            Some(a) => a + sep + t@,
                            None => t@,
                        },
                    ),
                ),
                JoinItem::Failed(m) => Err(join_failure_msg(items.len() - 1, m@)),
            },
        }
    }
}

/// Result of `?join(sep[, when_empty[, after_last]])`: the texts of the
/// non-null items separated by `sep` and followed by `after_last`, or
/// `when_empty` when there is no such item.
pub open spec fn join_result(
    items: Seq<JoinItem>,
    sep: Seq<char>,
    when_empty: Option<Seq<char>>,
    after_last: Option<Seq<char>>,
) -> Result<Seq<char>, Seq<char>> {
    match join_acc(items, sep) {
        Err(m) => Err(m),
        Ok(None) => Ok(
            match when_empty {
                Some(w) => w,
                None => Seq::empty(),
            },
        ),
        Ok(Some(a)) => Ok(
            match after_last {
                Some(l) => a + l,
                None => a,
            },
        ),
    }
}

/// The view of an optional string.
pub open spec fn opt_str(o: Option<&str>) -> Option<Seq<char>> {
    match o {
        Some(s) => Some(s@),
        None => None,
    }
}

fn join_failure(idx: usize, m: &String) -> (e: TemplateError)
    ensures
        is_misc(e, join_failure_msg(idx as int, m@)),
{
    let mut s = String::from_str("\"?join\" failed at index ");
    let n = crate::text::usize_text(idx);
    push_str(&mut s, n.as_str());
    push_str(&mut s, " with this error:\n\n---begin-message---\n");
    push_str(&mut s, m.as_str());
    push_str(&mut s, "\n---end-message---");
    TemplateError::misc(s)
}

/// Once an item failed, `?join` fails with its error whatever follows.
pub proof fn lemma_join_acc_err(items: Seq<JoinItem>, sep: Seq<char>, k: int)
    requires
        0 <= k <= items.len(),
        join_acc(items.take(k), sep) is Err,
    ensures
        join_acc(items, sep) == join_acc(items.take(k), sep),
    decreases items.len() - k,
{
    if k < items.len() {
        assert(items.take(k + 1).drop_last() =~= items.take(k));
        lemma_join_acc_err(items, sep, k + 1);
    } else {
        assert(items.take(k) =~= items);
    }
}

/// `?join(sep[, when_empty[, after_last]])` on the items of a sequence or
/// collection, converted to text.
pub fn join(items: &Vec<JoinItem>, sep: &str, when_empty: Option<&str>, after_last: Option<&str>) -> (r:
    Result<String, TemplateError>)
    ensures
        match join_result(items@, sep@, opt_str(when_empty), opt_str(after_last)) {
            Ok(t) => r matches Ok(s) && s@ == t,
            Err(msg) => r matches Err(e) && is_misc(e, msg),
        },
{
    let mut out = String::new();
    let mut had = false;
    let mut i: usize = 0;
    while i < items.len()
        invariant
            i <= items.len(),
            join_acc(items@.take(i as int), sep@) == Ok::<Option<Seq<char>>, Seq<char>>(
                if had {
                    Some(out@)
                } else {
                    None
                },
            ),
            !had ==> out@ == Seq::<char>::empty(),
        decreases items.len() - i,
    {
        proof {
            assert(items@.take(i as int + 1).drop_last() =~= items@.take(i as int));
        }
        match &items[i] {
            JoinItem::Skip => {},
            JoinItem::Text(t) => {
                if had {
                    push_str(&mut out, sep);
                }
                push_str(&mut out, t.as_str());
                had = true;
            },
            JoinItem::Failed(m) => {
                proof {
                    lemma_join_acc_err(items@, sep@, i as int + 1);
                }
                return Err(join_failure(i, m));
            },
        }
        i += 1;
    }
    proof {
        assert(items@.take(items.len() as int) =~= items@);
    }
    if had {
        if let Some(l) = after_last {
            push_str(&mut out, l);
        }
    } else {
        if let Some(w) = when_empty {
            push_str(&mut out, w);
        }
    }
    Ok(out)
}

} // verus!
