//! `?sort` and `?sort_by`: a stable sort of sequence items by keys whose
//! type is fixed by the first key.
use vstd::prelude::*;
use crate::error::{is_misc, TemplateError};
use crate::number::TNumber;
use crate::sequences::{num_ok, scalar_text, scalar_text_of, seq_items, items_error, range_wf};
use crate::text::push_str;
use crate::value::{lemma_vals_index, lemma_vals_len, lemma_vals_push, type_name_of, vals, TModel, Val};

verus! {

/// The type of the sort keys, fixed by the first key.
#[derive(Debug, Clone, Copy, PartialEq, Eq, Structural)]
pub enum KeyType {
    Number,
    String,
    Date,
    Boolean,
}

/// A sort key converted to the key type.
pub enum CastKey {
    Number(TNumber),
    String(String),
    Date(i64),
    Boolean(bool),
}

/// The value of a sort key.
pub enum KeyVal {
    Number(TNumber),
    String(Seq<char>),
    Date(i64),
    Boolean(bool),
}

impl View for CastKey {
    type V = KeyVal;

    open spec fn view(&self) -> KeyVal {
        match self {
            CastKey::Number(n) => KeyVal::Number(*n),
            CastKey::String(s) => KeyVal::String(s@),
            CastKey::Date(d) => KeyVal::Date(*d),
            CastKey::Boolean(b) => KeyVal::Boolean(*b),
        }
    }
}

/// The key type a first key fixes: strings (and markup), numbers, dates or
/// booleans; other values cannot be sort keys.
pub open spec fn key_type_of(v: Val) -> Option<KeyType> {
    if scalar_text(v) is Some {
        Some(KeyType::String)
    } else {
        match v {
            Val::Number(_) => Some(KeyType::Number),
            Val::Date(_) => Some(KeyType::Date),
            Val::Boolean(_) => Some(KeyType::Boolean),
            _ => None,
        }
    }
}

/// A key converted to the key type, when it has that type.
pub open spec fn key_as(v: Val, t: KeyType) -> Option<KeyVal> {
    match t {
        KeyType::String => match scalar_text(v) {
            Some(s) => Some(KeyVal::String(s)),
            None => None,
        },
        KeyType::Number => match v {
            Val::Number(n) => Some(KeyVal::Number(n)),
            _ => None,
        },
        KeyType::Date => match v {
            Val::Date(d) => Some(KeyVal::Date(d.millis)),
            _ => None,
        },
        KeyType::Boolean => match v {
            Val::Boolean(b) => Some(KeyVal::Boolean(b)),
            _ => None,
        },
    }
}

/// The type of the first key of a sort.
pub fn classify_key(k: &TModel) -> (r: Option<KeyType>)
    ensures
        r == key_type_of(k@),
{
    if scalar_text_of(k).is_some() {
        return Some(KeyType::String);
    }
    match k {
        TModel::Number(_) => Some(KeyType::Number),
        TModel::Date(_) => Some(KeyType::Date),
        TModel::Boolean(_) => Some(KeyType::Boolean),
        _ => None,
    }
}

/// A key converted to the key type, when it has that type.
pub fn cast_key(key: &TModel, t: KeyType) -> (r: Option<CastKey>)
    ensures
        match key_as(key@, t) {
            Some(kv) => r matches Some(c) && c@ == kv,
            None => r is None,
        },
{
    match t {
        KeyType::String => match scalar_text_of(key) {
            Some(s) => Some(CastKey::String(s.clone())),
            None => None,
        },
        KeyType::Number => match key {
            TModel::Number(n) => Some(CastKey::Number(*n)),
            _ => None,
        },
        KeyType::Date => match key {
            TModel::Date(d) => Some(CastKey::Date(d.millis)),
            _ => None,
        },
        KeyType::Boolean => match key {
            TModel::Boolean(b) => Some(CastKey::Boolean(*b)),
            _ => None,
        },
    }
}

/// Singular and plural name of a key type in messages.
pub open spec fn type_words(t: KeyType) -> (Seq<char>, Seq<char>) {
    match t {
        KeyType::Number => ("number"@, "numbers"@),
        KeyType::String => ("string"@, "strings"@),
        KeyType::Date => ("date/time"@, "date/times"@),
        KeyType::Boolean => ("boolean"@, "booleans"@),
    }
}

/// Singular and plural name of a key type in messages.
pub fn sort_type_words(t: KeyType) -> (r: (&'static str, &'static str))
    ensures
        r.0@ == type_words(t).0,
        r.1@ == type_words(t).1,
{
    match t {
        KeyType::Number => ("number", "numbers"),
        KeyType::String => ("string", "strings"),
        KeyType::Date => ("date/time", "date/times"),
        KeyType::Boolean => ("boolean", "booleans"),
    }
}

/// Whether key `a` sorts after key `b`: numbers by value, strings by the
/// collation order, dates by instant, and `false` before `true`.
pub open spec fn key_after(a: KeyVal, b: KeyVal) -> bool {
    match (a, b) {
        (KeyVal::Number(x), KeyVal::Number(y)) => y.lt(x),
        (KeyVal::String(x), KeyVal::String(y)) => crate::collation::collator_order(x, y)
            == std::cmp::Ordering::Greater,
        (KeyVal::Date(x), KeyVal::Date(y)) => x > y,
        (KeyVal::Boolean(x), KeyVal::Boolean(y)) => x && !y,
        _ => false,
    }
}

/// Numbers held by a key are well formed.
pub open spec fn key_ok(k: KeyVal) -> bool {
    k matches KeyVal::Number(n) ==> n.wf()
}

/// Whether key `a` sorts after key `b`.
pub fn key_greater(a: &CastKey, b: &CastKey) -> (r: bool)
    requires
        key_ok(a@),
        key_ok(b@),
    ensures
        r == key_after(a@, b@),
{
    match (a, b) {
        (CastKey::Number(x), CastKey::Number(y)) => crate::number::number_less(y, x),
        (CastKey::String(x), CastKey::String(y)) => match crate::collation::collator_cmp(
            x.as_str(),
            y.as_str(),
        ) {
            std::cmp::Ordering::Greater => true,
            _ => false,
        },
        (CastKey::Date(x), CastKey::Date(y)) => *x > *y,
        (CastKey::Boolean(x), CastKey::Boolean(y)) => *x && !*y,
        _ => false,
    }
}

/// Inserts index `i` into the sorted indices `s`, after every index whose
/// key does not sort after key `i` (so equal keys keep their order).
pub open spec fn insert_stable(s: Seq<int>, i: int, ks: Seq<KeyVal>) -> Seq<int>
    decreases s.len(),
{
    if s.len() == 0 {
        seq![i]
    } else if key_after(ks[s.last()], ks[i]) {
        insert_stable(s.drop_last(), i, ks).push(s.last())
    } else {
        s.push(i)
    }
}

/// Indices `0..n` ordered by their keys, equal keys in their original order.
pub open spec fn sorted_indices(ks: Seq<KeyVal>, n: nat) -> Seq<int>
    decreases n,
{
    if n == 0 {
        Seq::empty()
    } else {
        insert_stable(sorted_indices(ks, (n - 1) as nat), n - 1, ks)
    }
}

/// The items in the order of their keys.
pub open spec fn sorted_items(items: Seq<Val>, ks: Seq<KeyVal>) -> Seq<Val> {
    let idx = sorted_indices(ks, items.len());
    Seq::new(idx.len(), |p: int| items[idx[p]])
}

/// The keys converted to the key type `t`, or the index of the first key
/// that does not have that type.
pub open spec fn cast_all(keys: Seq<Val>, t: KeyType) -> Result<Seq<KeyVal>, int>
    decreases keys.len(),
{
    if keys.len() == 0 {
        Ok(Seq::empty())
    } else {
        match cast_all(keys.drop_last(), t) {
            Err(i) => Err(i),
            Ok(ks) => match key_as(keys.last(), t) {
                Some(k) => Ok(ks.push(k)),
                None => Err(keys.len() - 1),
            },
        }
    }
}

/// Start of a sort error at item `i`.
pub open spec fn sort_err_start(by: bool, i: int) -> Seq<char> {
    (if by {
        "?sort_by(...)"@
    } else {
        "?sort"@
    }) + " failed at sequence index "@ + crate::text::decimal(i as nat) + (if i == 0 {
        ""@
    } else {
        " (0-based)"@
    }) + ": "@
}

/// Message of a first key that cannot be a sort key.
pub open spec fn bad_first_key_msg(by: bool) -> Seq<char> {
    sort_err_start(by, 0)
        + "Values used for sorting must be numbers, strings, date/times or booleans."@
}

/// Message of a key whose type differs from the first key's.
pub open spec fn inconsistent_key_msg(by: bool, i: int, t: KeyType, key: Val) -> Seq<char> {
    let vw = if by {
        "key value"@
    } else {
        "value"@
    };
    let vsw = if by {
        "key values"@
    } else {
        "values"@
    };
    sort_err_start(by, i) + "All "@ + vsw + " in the sequence must be "@ + type_words(t).1
        + ", because the first "@ + vw + " was that. However, the "@ + vw
        + " of the current item isn't a "@ + type_words(t).0 + " but a "@ + type_name_of(key)
        + "."@
}

/// Result of sorting `items` by `keys` (`by` for `?sort_by`).
pub open spec fn sort_keys_result(items: Seq<Val>, by: bool, keys: Seq<Val>) -> Result<
    Seq<Val>,
    Seq<char>,
> {
    if keys.len() == 0 {
        Ok(Seq::empty())
    } else {
        match key_type_of(keys[0]) {
            None => Err(bad_first_key_msg(by)),
            Some(t) => match cast_all(keys, t) {
                Err(i) => Err(inconsistent_key_msg(by, i, t, keys[i])),
                Ok(ks) => Ok(sorted_items(items, ks)),
            },
        }
    }
}

/// The values of converted keys.
pub open spec fn keyvals(s: Seq<CastKey>) -> Seq<KeyVal> {
    Seq::new(s.len(), |i: int| s[i]@)
}

/// Indices as integers.
pub open spec fn ints(s: Seq<usize>) -> Seq<int> {
    Seq::new(s.len(), |i: int| s[i] as int)
}

/// A successful conversion gives one key per item, each the conversion of
/// the item's key.
pub proof fn lemma_cast_all(keys: Seq<Val>, t: KeyType)
    requires
        cast_all(keys, t) is Ok,
    ensures
        cast_all(keys, t)->Ok_0.len() == keys.len(),
        forall|i: int|
            0 <= i < keys.len() ==> key_as(keys[i], t) == Some(
                #[trigger] cast_all(keys, t)->Ok_0[i],
            ),
    decreases keys.len(),
{
    if keys.len() > 0 {
        lemma_cast_all(keys.drop_last(), t);
    }
}

/// Start of a sort error at item `i`.
fn sort_error_start(by: bool, i: usize) -> (s: String)
    ensures
        s@ == sort_err_start(by, i as int),
{
    let mut s = if by {
        String::from_str("?sort_by(...)")
    } else {
        String::from_str("?sort")
    };
    push_str(&mut s, " failed at sequence index ");
    let n = crate::text::usize_text(i);
    push_str(&mut s, n.as_str());
    if i == 0 {
        push_str(&mut s, "");
    } else {
        push_str(&mut s, " (0-based)");
    }
    push_str(&mut s, ": ");
    s
}

fn inconsistent_key(by: bool, i: usize, t: KeyType, key: &TModel) -> (e: TemplateError)
    ensures
        is_misc(e, inconsistent_key_msg(by, i as int, t, key@)),
{
    let (single, plural) = sort_type_words(t);
    let vw = if by {
        "key value"
    } else {
        "value"
    };
    let vsw = if by {
        "key values"
    } else {
        "values"
    };
    let mut s = sort_error_start(by, i);
    push_str(&mut s, "All ");
    push_str(&mut s, vsw);
    push_str(&mut s, " in the sequence must be ");
    push_str(&mut s, plural);
    push_str(&mut s, ", because the first ");
    push_str(&mut s, vw);
    push_str(&mut s, " was that. However, the ");
    push_str(&mut s, vw);
    push_str(&mut s, " of the current item isn't a ");
    push_str(&mut s, single);
    push_str(&mut s, " but a ");
    push_str(&mut s, key.kind_name());
    push_str(&mut s, ".");
    TemplateError::misc(s)
}

/// Inserts index `i` into the sorted indices after every index whose key
/// does not sort after key `i`.
fn insert_index(idx: &mut Vec<usize>, i: usize, cks: &Vec<CastKey>)
    requires
        i < cks.len(),
        forall|q: int| 0 <= q < old(idx).len() ==> old(idx)@[q] < cks.len(),
        forall|q: int| 0 <= q < cks.len() ==> key_ok(#[trigger] cks@[q]@),
    ensures
        ints(final(idx)@) == insert_stable(ints(old(idx)@), i as int, keyvals(cks@)),
        forall|q: int| 0 <= q < final(idx).len() ==> final(idx)@[q] < cks.len(),
{
    let ghost s = ints(idx@);
    let ghost ks = keyvals(cks@);
    let mut p: usize = idx.len();
    proof {
        assert(s.take(p as int) =~= s);
        assert(s + s.skip(p as int) =~= s);
        assert(insert_stable(s, i as int, ks) + Seq::<int>::empty() =~= insert_stable(s, i as int, ks));
    }
    loop
        invariant
            p <= idx.len(),
            s == ints(idx@),
            ks == keyvals(cks@),
            i < cks.len(),
            forall|q: int| 0 <= q < idx.len() ==> idx@[q] < cks.len(),
            forall|q: int| 0 <= q < cks.len() ==> key_ok(#[trigger] cks@[q]@),
            insert_stable(s, i as int, ks) == insert_stable(s.take(p as int), i as int, ks) + s.skip(
                p as int,
            ),
        ensures
            p <= idx.len(),
            s == ints(idx@),
            insert_stable(s, i as int, ks) == insert_stable(s.take(p as int), i as int, ks) + s.skip(
                p as int,
            ),
            p == 0 || !key_after(ks[s[p as int - 1]], ks[i as int]),
        decreases p,
    {
        if p == 0 {
            break;
        }
        let j = idx[p - 1];
        if !key_greater(&cks[j], &cks[i]) {
            break;
        }
        proof {
            let tp = s.take(p as int);
            assert(tp.drop_last() =~= s.take(p as int - 1));
            assert(tp.last() == j as int);
            assert(insert_stable(tp, i as int, ks) == insert_stable(s.take(p as int - 1), i as int, ks).push(j as int));
            assert(insert_stable(s.take(p as int - 1), i as int, ks).push(j as int) + s.skip(p as int)
                =~= insert_stable(s.take(p as int - 1), i as int, ks) + s.skip(p as int - 1));
        }
        p -= 1;
    }
    proof {
        let tp = s.take(p as int);
        if p == 0 {
            assert(tp =~= Seq::<int>::empty());
            assert(insert_stable(tp, i as int, ks) =~= seq![i as int]);
        } else {
            assert(tp.last() == idx@[p - 1] as int);
            assert(insert_stable(tp, i as int, ks) == tp.push(i as int));
        }
        assert(insert_stable(tp, i as int, ks) + s.skip(p as int) =~= ints(idx@.insert(p as int, i)));
    }
    idx.insert(p, i);
}

/// Sorts `items` by their `keys` (`key_names_ln` is the number of key names
/// of `?sort_by`, 0 for `?sort`): the first key fixes the key type, every
/// key must have it, and items with equal keys keep their order.
pub fn sort_by_keys(items: &Vec<TModel>, key_names_ln: usize, keys: &Vec<TModel>) -> (r: Result<
    Vec<TModel>,
    TemplateError,
>)
    requires
        items.len() == keys.len(),
        crate::sequences::all_num_ok(vals(keys@)),
    ensures
        match sort_keys_result(vals(items@), key_names_ln > 0, vals(keys@)) {
            Ok(x) => r matches Ok(v) && vals(v@) == x,
            Err(msg) => r matches Err(e) && is_misc(e, msg),
        },
{
    let by = key_names_ln > 0;
    let ghost kv = vals(keys@);
    let ghost iv = vals(items@);
    proof {
        lemma_vals_len(keys@);
        lemma_vals_len(items@);
    }
    if keys.len() == 0 {
        return Ok(Vec::new());
    }
    proof {
        lemma_vals_index(keys@, 0);
    }
    let t = match classify_key(&keys[0]) {
        Some(t) => t,
        None => {
            let mut s = sort_error_start(by, 0);
            push_str(&mut s, "Values used for sorting must be numbers, strings, date/times or booleans.");
            return Err(TemplateError::misc(s));
        },
    };
    let mut cks: Vec<CastKey> = Vec::new();
    let mut i: usize = 0;
    proof {
        assert(kv.take(0) =~= Seq::<Val>::empty());
        assert(keyvals(cks@) =~= Seq::<KeyVal>::empty());
    }
    while i < keys.len()
        invariant
            i <= keys.len(),
            kv == vals(keys@),
            kv.len() == keys.len(),
            key_type_of(kv[0]) == Some(t),
            by == (key_names_ln > 0),
            crate::sequences::all_num_ok(kv),
            cast_all(kv.take(i as int), t) == Ok::<Seq<KeyVal>, int>(keyvals(cks@)),
            cks.len() == i,
        decreases keys.len() - i,
    {
        proof {
            lemma_vals_index(keys@, i as int);
            assert(kv.take(i as int + 1).drop_last() =~= kv.take(i as int));
        }
        match cast_key(&keys[i], t) {
            Some(c) => {
                proof {
                    assert(keyvals(cks@.push(c)) =~= keyvals(cks@).push(c@));
                }
                cks.push(c);
            },
            None => {
                proof {
                    assert(kv.take(i as int + 1).last() == kv[i as int]);
                    assert(keys@[i as int]@ == kv[i as int]);
                    assert(key_as(kv[i as int], t) is None);
                    assert(cast_all(kv.take(i as int + 1), t) == Err::<Seq<KeyVal>, int>(i as int));
                    lemma_cast_all_err(kv, t, i as int + 1);
                }
                return Err(inconsistent_key(by, i, t, &keys[i]));
            },
        }
        i += 1;
    }
    proof {
        assert(kv.take(kv.len() as int) =~= kv);
        lemma_cast_all(kv, t);
    }
    let ghost ks = keyvals(cks@);
    assert forall|q: int| 0 <= q < cks.len() implies key_ok(#[trigger] cks@[q]@) by {
        assert(cks@[q]@ == ks[q]);
        assert(num_ok(kv[q]));
    }
    let mut idx: Vec<usize> = Vec::new();
    let mut j: usize = 0;
    while j < keys.len()
        invariant
            j <= keys.len(),
            cks.len() == keys.len(),
            ks == keyvals(cks@),
            ints(idx@) == sorted_indices(ks, j as nat),
            forall|q: int| 0 <= q < idx.len() ==> idx@[q] < cks.len(),
            forall|q: int| 0 <= q < cks.len() ==> key_ok(#[trigger] cks@[q]@),
        decreases keys.len() - j,
    {
        insert_index(&mut idx, j, &cks);
        j += 1;
    }
    let mut out: Vec<TModel> = Vec::new();
    let mut k: usize = 0;
    let ghost si = sorted_indices(ks, iv.len());
    proof {
        assert(ks.len() == iv.len());
    }
    while k < idx.len()
        invariant
            k <= idx.len(),
            si == ints(idx@),
            iv == vals(items@),
            iv.len() == items.len(),
            items.len() == cks.len(),
            forall|q: int| 0 <= q < idx.len() ==> idx@[q] < cks.len(),
            vals(out@) == Seq::new(k as nat, |p: int| iv[si[p]]),
        decreases idx.len() - k,
    {
        let x = idx[k];
        proof {
            lemma_vals_index(items@, x as int);
        }
        let m = items[x].copy_model();
        proof {
            lemma_vals_push(out@, m);
            assert(Seq::new(k as nat + 1, |p: int| iv[si[p]]) =~= Seq::new(k as nat, |p: int| iv[si[p]]).push(m@));
        }
        out.push(m);
        k += 1;
    }
    proof {
        assert(vals(out@) =~= sorted_items(iv, ks));
    }
    Ok(out)
}

/// Once a key fails to convert, the conversion fails at it whatever
/// follows.
pub proof fn lemma_cast_all_err(keys: Seq<Val>, t: KeyType, k: int)
    requires
        0 <= k <= keys.len(),
        cast_all(keys.take(k), t) is Err,
    ensures
        cast_all(keys, t) == cast_all(keys.take(k), t),
    decreases keys.len() - k,
{
    if k < keys.len() {
        assert(keys.take(k + 1).drop_last() =~= keys.take(k));
        lemma_cast_all_err(keys, t, k + 1);
    } else {
        assert(keys.take(k) =~= keys);
    }
}

/// Result of `?sort`: the items of a sequence sorted by themselves; an
/// empty sequence is returned as it is.
pub open spec fn sort_result(v: Val) -> Result<Val, Seq<char>> {
    match seq_items(v) {
        None => Err(items_error("sort"@, v)),
        Some(items) => if items.len() == 0 {
            Ok(v)
        } else {
            match sort_keys_result(items, false, items) {
                Ok(s) => Ok(Val::Sequence(s)),
                Err(m) => Err(m),
            }
        },
    }
}

/// `?sort`.
pub fn sort(m: &TModel) -> (r: Result<TModel, TemplateError>)
    requires
        crate::seq_builtins::items_ok(m@),
    ensures
        match sort_result(m@) {
            Ok(x) => r matches Ok(v) && v@ == x,
            Err(msg) => r matches Err(e) && is_misc(e, msg),
        },
{
    let items = crate::sequences::sequence_items(m, "sort")?;
    proof {
        lemma_vals_len(items@);
    }
    if items.len() == 0 {
        return Ok(m.copy_model());
    }
    let keys = crate::value::copy_items(&items);
    proof {
        lemma_vals_len(keys@);
    }
    let sorted = sort_by_keys(&items, 0, &keys)?;
    Ok(TModel::Sequence(sorted))
}

/// The value of the first entry of a hash with key `k`.
pub open spec fn hash_get(es: Seq<(Seq<char>, Val)>, k: Seq<char>) -> Option<Val>
    decreases es.len(),
{
    if es.len() == 0 {
        None
    } else if es[0].0 == k {
        Some(es[0].1)
    } else {
        hash_get(es.skip(1), k)
    }
}

/// The value of the first entry of a hash with key `k`.
pub fn hash_lookup(es: &Vec<(String, TModel)>, k: &str) -> (r: Option<TModel>)
    ensures
        match hash_get(crate::value::entry_vals(es@), k@) {
            Some(x) => r matches Some(v) && v@ == x,
            None => r is None,
        },
{
    let ghost ev = crate::value::entry_vals(es@);
    proof {
        crate::value::lemma_entry_vals_len(es@);
        assert(ev.skip(0) =~= ev);
    }
    let mut i: usize = 0;
    while i < es.len()
        invariant
            i <= es.len(),
            ev == crate::value::entry_vals(es@),
            ev.len() == es.len(),
            hash_get(ev, k@) == hash_get(ev.skip(i as int), k@),
        decreases es.len() - i,
    {
        proof {
            crate::value::lemma_entry_vals_index(es@, i as int);
            assert(ev.skip(i as int)[0] == ev[i as int]);
            assert(ev.skip(i as int).skip(1) =~= ev.skip(i as int + 1));
        }
        if crate::text::str_eq(es[i].0.as_str(), k) {
            return Some(es[i].1.copy_model());
        }
        i += 1;
    }
    proof {
        assert(ev.skip(i as int).len() == 0);
    }
    None
}

/// Message of `?sort_by` called without arguments.
pub open spec fn sort_by_no_args_msg() -> Seq<char> {
    "?sort_by(...) expects 1 argument but has received none."@
}

/// Message of a `?sort_by` argument that is neither a string nor a sequence.
pub open spec fn sort_by_bad_arg_msg() -> Seq<char> {
    "The argument to ?sort_by(key) must be a string (the name of the subvariable), or a sequence of strings (the \"path\" to the subvariable)."@
}

/// Message of a `?sort_by` path item that is not a string.
pub open spec fn sort_by_bad_path_msg(j: int) -> Seq<char> {
    "The argument to ?sort_by(key), when it's a sequence, must be a sequence of strings, but the item at index "@
        + crate::text::decimal(j as nat) + " is not a string."@
}

/// The texts of a sequence of strings, or the index of the first item that
/// is not a string.
pub open spec fn path_names(items: Seq<Val>) -> Result<Seq<Seq<char>>, int>
    decreases items.len(),
{
    if items.len() == 0 {
        Ok(Seq::empty())
    } else {
        match path_names(items.drop_last()) {
            Err(j) => Err(j),
            Ok(ns) => match scalar_text(items.last()) {
                Some(t) => Ok(ns.push(t)),
                None => Err(items.len() - 1),
            },
        }
    }
}

/// The key names one argument of `?sort_by` gives: a string is one name, a
/// sequence of strings a path of names.
pub open spec fn arg_key_names(a: Val) -> Result<Seq<Seq<char>>, Seq<char>> {
    match scalar_text(a) {
        Some(t) => Ok(seq![t]),
        None => match seq_items(a) {
            Some(items) => match path_names(items) {
                Ok(ns) => Ok(ns),
                Err(j) => Err(sort_by_bad_path_msg(j)),
            },
            None => Err(sort_by_bad_arg_msg()),
        },
    }
}

/// The key names of all arguments of `?sort_by`, in order.
pub open spec fn key_names_of(args: Seq<Val>) -> Result<Seq<Seq<char>>, Seq<char>>
    decreases args.len(),
{
    if args.len() == 0 {
        Ok(Seq::empty())
    } else {
        match key_names_of(args.drop_last()) {
            Err(m) => Err(m),
            Ok(ns) => match arg_key_names(args.last()) {
                Err(m) => Err(m),
                Ok(more) => Ok(ns + more),
            },
        }
    }
}

/// Result of reading the key names of `?sort_by` from its arguments.
pub open spec fn sort_by_names_result(args: Seq<Val>) -> Result<Seq<Seq<char>>, Seq<char>> {
    if args.len() == 0 {
        Err(sort_by_no_args_msg())
    } else {
        key_names_of(args)
    }
}

/// Once reading the key names failed, it fails with that error whatever
/// arguments follow.
pub proof fn lemma_key_names_err(args: Seq<Val>, k: int)
    requires
        0 <= k <= args.len(),
        key_names_of(args.take(k)) is Err,
    ensures
        key_names_of(args) == key_names_of(args.take(k)),
    decreases args.len() - k,
{
    if k < args.len() {
        assert(args.take(k + 1).drop_last() =~= args.take(k));
        lemma_key_names_err(args, k + 1);
    } else {
        assert(args.take(k) =~= args);
    }
}

/// Once a path item is not a string, reading the path fails at it whatever
/// follows.
pub proof fn lemma_path_names_err(items: Seq<Val>, k: int)
    requires
        0 <= k <= items.len(),
        path_names(items.take(k)) is Err,
    ensures
        path_names(items) == path_names(items.take(k)),
    decreases items.len() - k,
{
    if k < items.len() {
        assert(items.take(k + 1).drop_last() =~= items.take(k));
        lemma_path_names_err(items, k + 1);
    } else {
        assert(items.take(k) =~= items);
    }
}

/// The key names of one argument of `?sort_by`, appended to `names`.
pub(crate) fn push_arg_key_names(a: &TModel, names: &mut Vec<String>) -> (r: Result<(), TemplateError>)
    requires
        crate::sequences::range_ok(a@),
    ensures
        match arg_key_names(a@) {
            Ok(more) => r is Ok && crate::text::strings_view(final(names)@) == crate::text::strings_view(
                old(names)@,
            ) + more,
            Err(msg) => r matches Err(e) && is_misc(e, msg),
        },
{
    if let Some(t) = scalar_text_of(a) {
        let c = t.clone();
        proof {
            assert(crate::text::strings_view(names@.push(c)) =~= crate::text::strings_view(names@) + seq![t@]);
        }
        names.push(c);
        return Ok(());
    }
    let items = match crate::sequences::sequence_items(a, "sort_by") {
        Ok(items) => items,
        Err(_) => {
            return Err(TemplateError::misc(String::from_str(
                "The argument to ?sort_by(key) must be a string (the name of the subvariable), or a sequence of strings (the \"path\" to the subvariable).",
            )));
        },
    };
    proof {
        lemma_vals_len(items@);
    }
    let ghost iv = vals(items@);
    let ghost base = crate::text::strings_view(names@);
    let mut j: usize = 0;
    proof {
        assert(iv.take(0) =~= Seq::<Val>::empty());
        assert(crate::text::strings_view(names@) =~= base + Seq::<Seq<char>>::empty());
    }
    while j < items.len()
        invariant
            j <= items.len(),
            iv == vals(items@),
            iv.len() == items.len(),
            path_names(iv.take(j as int)) matches Ok(ns) && crate::text::strings_view(names@) == base
                + ns,
            scalar_text(a@) is None,
            seq_items(a@) == Some(iv),
        decreases items.len() - j,
    {
        proof {
            lemma_vals_index(items@, j as int);
            assert(iv.take(j as int + 1).drop_last() =~= iv.take(j as int));
            assert(iv.take(j as int + 1).last() == iv[j as int]);
        }
        match scalar_text_of(&items[j]) {
            Some(t) => {
                let c = t.clone();
                proof {
                    let ns = path_names(iv.take(j as int))->Ok_0;
                    assert(c@ == t@);
                    assert(crate::text::strings_view(names@) == base + ns);
                    assert(crate::text::strings_view(names@.push(c)) =~= crate::text::strings_view(names@).push(c@));
                    assert(crate::text::strings_view(names@.push(c)) =~= base + ns.push(t@));
                }
                names.push(c);
            },
            None => {
                proof {
                    lemma_path_names_err(iv, j as int + 1);
                }
                let mut s = String::from_str(
                    "The argument to ?sort_by(key), when it's a sequence, must be a sequence of strings, but the item at index ",
                );
                let n = crate::text::usize_text(j);
                push_str(&mut s, n.as_str());
                push_str(&mut s, " is not a string.");
                return Err(TemplateError::misc(s));
            },
        }
        j += 1;
    }
    proof {
        assert(iv.take(iv.len() as int) =~= iv);
    }
    Ok(())
}

/// Reads the key names of `?sort_by` from its evaluated arguments (a
/// missing argument is null).
pub fn sort_by_key_names(args: &Vec<TModel>) -> (r: Result<Vec<String>, TemplateError>)
    requires
        forall|i: int| 0 <= i < args.len() ==> crate::sequences::range_ok(#[trigger] args@[i]@),
    ensures
        match sort_by_names_result(vals(args@)) {
            Ok(ns) => r matches Ok(v) && crate::text::strings_view(v@) == ns,
            Err(msg) => r matches Err(e) && is_misc(e, msg),
        },
{
    proof {
        lemma_vals_len(args@);
    }
    if args.len() == 0 {
        return Err(TemplateError::misc(String::from_str(
            "?sort_by(...) expects 1 argument but has received none.",
        )));
    }
    let ghost av = vals(args@);
    let mut names: Vec<String> = Vec::new();
    let mut i: usize = 0;
    proof {
        assert(av.take(0) =~= Seq::<Val>::empty());
        assert(crate::text::strings_view(names@) =~= Seq::<Seq<char>>::empty());
    }
    while i < args.len()
        invariant
            i <= args.len(),
            av == vals(args@),
            av.len() == args.len(),
            forall|q: int| 0 <= q < args.len() ==> crate::sequences::range_ok(#[trigger] args@[q]@),
            key_names_of(av.take(i as int)) matches Ok(ns) && crate::text::strings_view(names@)
                == ns,
        decreases args.len() - i,
    {
        proof {
            lemma_vals_index(args@, i as int);
            assert(av.take(i as int + 1).drop_last() =~= av.take(i as int));
            assert(av.take(i as int + 1).last() == av[i as int]);
        }
        let ghost before = crate::text::strings_view(names@);
        match push_arg_key_names(&args[i], &mut names) {
            Ok(()) => {
                proof {
                    let ns = key_names_of(av.take(i as int))->Ok_0;
                    let more = arg_key_names(av[i as int])->Ok_0;
                    assert(crate::text::strings_view(names@) == ns + more);
                }
            },
            Err(e) => {
                proof {
                    lemma_key_names_err(av, i as int + 1);
                }
                return Err(e);
            },
        }
        i += 1;
    }
    proof {
        assert(av.take(av.len() as int) =~= av);
    }
    Ok(names)
}

/// Message of a `?sort_by` path step on a value that is not a hash.
pub open spec fn not_hash_msg(names: Seq<Seq<char>>, kn: int) -> Seq<char> {
    if kn == 0 {
        "Sequence items must be hashes when using ?sort_by.  subvariable is not a hash, so ?sort_by can't proceed with getting the \""@
            + names[0] + "\" subvariable."@
    } else {
        "The \""@ + names[kn - 1]
            + "\" subvariable is not a hash, so ?sort_by can't proceed with getting the \""@
            + names[kn] + "\" subvariable."@
    }
}

/// Message of a `?sort_by` path step whose subvariable is missing.
pub open spec fn missing_sub_msg(name: Seq<char>) -> Seq<char> {
    "The \""@ + name + "\" subvariable was null or missing."@
}

/// The sort key of `v` reached by following `names` from step `kn`, errors
/// starting with `prefix`.
pub open spec fn path_key(v: Val, names: Seq<Seq<char>>, kn: int, prefix: Seq<char>) -> Result<
    Val,
    Seq<char>,
>
    decreases names.len() - kn,
{
    if kn < 0 || kn >= names.len() {
        Ok(v)
    } else {
        match v {
            Val::Hash(es) => match hash_get(es, names[kn]) {
                None => Err(prefix + missing_sub_msg(names[kn])),
                Some(x) => path_key(x, names, kn + 1, prefix),
            },
            _ => Err(prefix + not_hash_msg(names, kn)),
        }
    }
}

/// The sort keys of the items, or the error of the first item whose key
/// cannot be reached.
pub open spec fn keys_of(items: Seq<Val>, names: Seq<Seq<char>>) -> Result<Seq<Val>, Seq<char>>
    decreases items.len(),
{
    if items.len() == 0 {
        Ok(Seq::empty())
    } else {
        match keys_of(items.drop_last(), names) {
            Err(m) => Err(m),
            Ok(ks) => match path_key(
                items.last(),
                names,
                0,
                sort_err_start(true, items.len() - 1),
            ) {
                Err(m) => Err(m),
                Ok(k) => Ok(ks.push(k)),
            },
        }
    }
}

/// Result of `?sort_by(names)`: the items of a sequence sorted by the keys
/// the names lead to; an empty sequence is returned as it is.
pub open spec fn sort_by_result(v: Val, names: Seq<Seq<char>>) -> Result<Val, Seq<char>> {
    match seq_items(v) {
        None => Err(items_error("sort_by"@, v)),
        Some(items) => if items.len() == 0 {
            Ok(v)
        } else {
            match keys_of(items, names) {
                Err(m) => Err(m),
                Ok(keys) => match sort_keys_result(items, names.len() > 0, keys) {
                    Ok(s) => Ok(Val::Sequence(s)),
                    Err(m) => Err(m),
                },
            }
        },
    }
}

/// A value found in a well-formed hash is well formed.
pub proof fn lemma_hash_get_ok(es: Seq<(Seq<char>, Val)>, k: Seq<char>)
    requires
        forall|i: int| 0 <= i < es.len() ==> crate::sequences::val_ok(#[trigger] es[i].1),
    ensures
        hash_get(es, k) matches Some(x) ==> crate::sequences::val_ok(x),
    decreases es.len(),
{
    if es.len() > 0 && es[0].0 != k {
        assert forall|i: int| 0 <= i < es.skip(1).len() implies crate::sequences::val_ok(
            #[trigger] es.skip(1)[i].1,
        ) by {
            assert(es.skip(1)[i] == es[i + 1]);
        }
        lemma_hash_get_ok(es.skip(1), k);
    }
}

/// Once an item's key cannot be reached, the keys fail with that error
/// whatever items follow.
pub proof fn lemma_keys_of_err(items: Seq<Val>, names: Seq<Seq<char>>, k: int)
    requires
        0 <= k <= items.len(),
        keys_of(items.take(k), names) is Err,
    ensures
        keys_of(items, names) == keys_of(items.take(k), names),
    decreases items.len() - k,
{
    if k < items.len() {
        assert(items.take(k + 1).drop_last() =~= items.take(k));
        lemma_keys_of_err(items, names, k + 1);
    } else {
        assert(items.take(k) =~= items);
    }
}

fn not_hash_error(prefix: &String, names: &Vec<String>, kn: usize) -> (e: TemplateError)
    requires
        kn < names.len(),
    ensures
        is_misc(e, prefix@ + not_hash_msg(crate::text::strings_view(names@), kn as int)),
{
    let mut s = prefix.clone();
    if kn == 0 {
        push_str(
            &mut s,
            "Sequence items must be hashes when using ?sort_by.  subvariable is not a hash, so ?sort_by can't proceed with getting the \"",
        );
        push_str(&mut s, names[0].as_str());
        push_str(&mut s, "\" subvariable.");
    } else {
        push_str(&mut s, "The \"");
        push_str(&mut s, names[kn - 1].as_str());
        push_str(&mut s, "\" subvariable is not a hash, so ?sort_by can't proceed with getting the \"");
        push_str(&mut s, names[kn].as_str());
        push_str(&mut s, "\" subvariable.");
    }
    proof {
        let ns = crate::text::strings_view(names@);
        assert(ns[kn as int] == names@[kn as int]@);
        assert(ns[0] == names@[0]@);
        if kn > 0 {
            assert(ns[kn - 1] == names@[kn - 1]@);
        }
        assert(s@ =~= prefix@ + not_hash_msg(ns, kn as int));
    }
    TemplateError::misc(s)
}

/// The sort key of an item reached by following the key names.
fn item_key(item: &TModel, names: &Vec<String>, prefix: &String) -> (r: Result<TModel, TemplateError>)
    requires
        crate::sequences::val_ok(item@),
    ensures
        match path_key(item@, crate::text::strings_view(names@), 0, prefix@) {
            Ok(k) => r matches Ok(v) && v@ == k && crate::sequences::val_ok(k),
            Err(msg) => r matches Err(e) && is_misc(e, msg),
        },
{
    let ghost ns = crate::text::strings_view(names@);
    let mut key = item.copy_model();
    let mut kn: usize = 0;
    while kn < names.len()
        invariant
            kn <= names.len(),
            ns == crate::text::strings_view(names@),
            ns.len() == names.len(),
            crate::sequences::val_ok(key@),
            path_key(item@, ns, 0, prefix@) == path_key(key@, ns, kn as int, prefix@),
        decreases names.len() - kn,
    {
        let next = match &key {
            TModel::Hash(es) => {
                proof {
                    assert(ns[kn as int] == names@[kn as int]@);
                    lemma_hash_get_ok(crate::value::entry_vals(es@), ns[kn as int]);
                }
                match hash_lookup(es, names[kn].as_str()) {
                    Some(x) => x,
                    None => {
                        let mut s = prefix.clone();
                        push_str(&mut s, "The \"");
                        push_str(&mut s, names[kn].as_str());
                        push_str(&mut s, "\" subvariable was null or missing.");
                        proof {
                            assert(s@ =~= prefix@ + missing_sub_msg(ns[kn as int]));
                        }
                        return Err(TemplateError::misc(s));
                    },
                }
            },
            _ => {
                return Err(not_hash_error(prefix, names, kn));
            },
        };
        key = next;
        kn += 1;
    }
    Ok(key)
}

/// `?sort_by(names)`: sorts the items of a sequence by the keys the names
/// lead to (a path of subvariable names).
pub fn sort_by(m: &TModel, names: &Vec<String>) -> (r: Result<TModel, TemplateError>)
    requires
        crate::sequences::val_ok(m@),
    ensures
        match sort_by_result(m@, crate::text::strings_view(names@)) {
            Ok(x) => r matches Ok(v) && v@ == x,
            Err(msg) => r matches Err(e) && is_misc(e, msg),
        },
{
    proof {
        crate::sequences::lemma_val_ok_items(m@);
    }
    let ghost ns = crate::text::strings_view(names@);
    let items = crate::sequences::sequence_items(m, "sort_by")?;
    proof {
        lemma_vals_len(items@);
    }
    if items.len() == 0 {
        return Ok(m.copy_model());
    }
    let ghost iv = vals(items@);
    let mut keys: Vec<TModel> = Vec::new();
    let mut i: usize = 0;
    proof {
        assert(iv.take(0) =~= Seq::<Val>::empty());
        assert(vals(keys@) =~= Seq::<Val>::empty());
    }
    while i < items.len()
        invariant
            i <= items.len(),
            iv == vals(items@),
            iv.len() == items.len(),
            ns == crate::text::strings_view(names@),
            seq_items(m@) == Some(iv),
            iv.len() > 0,
            forall|q: int| 0 <= q < iv.len() ==> crate::sequences::val_ok(#[trigger] iv[q]),
            keys_of(iv.take(i as int), ns) == Ok::<Seq<Val>, Seq<char>>(vals(keys@)),
            forall|q: int| 0 <= q < vals(keys@).len() ==> crate::sequences::val_ok(#[trigger] vals(keys@)[q]),
            keys.len() == i,
        decreases items.len() - i,
    {
        proof {
            lemma_vals_index(items@, i as int);
            assert(iv.take(i as int + 1).drop_last() =~= iv.take(i as int));
            assert(iv.take(i as int + 1).last() == iv[i as int]);
        }
        let prefix = sort_error_start(true, i);
        match item_key(&items[i], names, &prefix) {
            Ok(k) => {
                proof {
                    lemma_vals_push(keys@, k);
                    lemma_vals_len(keys@);
                }
                keys.push(k);
            },
            Err(e) => {
                proof {
                    lemma_keys_of_err(iv, ns, i as int + 1);
                }
                return Err(e);
            },
        }
        i += 1;
    }
    proof {
        assert(iv.take(iv.len() as int) =~= iv);
        lemma_vals_len(keys@);
        assert forall|q: int| 0 <= q < vals(keys@).len() implies num_ok(#[trigger] vals(keys@)[q]) by {
            assert(crate::sequences::val_ok(vals(keys@)[q]));
        }
    }
    let sorted = sort_by_keys(&items, names.len(), &keys)?;
    Ok(TModel::Sequence(sorted))
}

} // verus!
