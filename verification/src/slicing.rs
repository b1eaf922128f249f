//! Slicing a sequence or a string with a range: `seq[1..3]`, `s[2..]`,
//! `s[0..*5]`.
use vstd::prelude::*;
use crate::error::{is_misc, is_type_mismatch, TemplateError};
use crate::sequences::{range_item, range_wf, scalar_text, scalar_text_of, seq_items};
use crate::text::{decimal, int_text, push_str};
use crate::value::{lemma_vals_index, lemma_vals_len, lemma_vals_push, type_name_of, vals, RangeSpec, TModel, Val};

verus! {

/// The length of a value that can be sliced, and whether it is a string.
pub open spec fn slice_len(v: Val) -> Option<(int, bool)> {
    match seq_items(v) {
        Some(items) => Some((items.len() as int, false)),
        None => match scalar_text(v) {
            Some(s) => Some((s.len() as int, true)),
            None => None,
        },
    }
}

/// Message of a slice index that is out of bounds (`what` is `start` or
/// `end`).
pub open spec fn out_of_bounds_msg(what: Seq<char>, idx: int, size: int, is_str: bool) -> Seq<char> {
    "Range "@ + what + " index "@ + int_text(idx) + " is out of bounds, because the sliced "@ + (if is_str {
        "string"@
    } else {
        "sequence"@
    }) + " has only "@ + int_text(size) + " "@ + (if is_str {
        "character"@
    } else {
        "element"@
    }) + "(s). (Note that indices are 0-based)."@
}

/// Message of a negative slice index (`what` is `start` or `end`).
pub open spec fn negative_index_msg(what: Seq<char>, idx: int) -> Seq<char> {
    "Negative range "@ + what + " index ("@ + int_text(idx)
        + ") isn't allowed for a range used for slicing."@
}

/// Number of items a non-empty slicing range takes from a value of `size`
/// items, or the error of the range.
pub open spec fn slice_size(r: RangeSpec, size: int, is_str: bool) -> Result<int, Seq<char>> {
    let first = r.start as int;
    if first < 0 {
        Err(negative_index_msg("start"@, first))
    } else if !(if r.adaptive && r.ascending {
        first <= size
    } else {
        first < size
    }) {
        Err(out_of_bounds_msg("start"@, first, size, is_str))
    } else if r.unbounded {
        Ok(size - first)
    } else {
        let last = range_item(r, r.count - 1);
        if last < 0 {
            if !r.adaptive {
                Err(negative_index_msg("end"@, last))
            } else {
                Ok(first + 1)
            }
        } else if last >= size {
            if !r.adaptive {
                Err(out_of_bounds_msg("end"@, last, size, is_str))
            } else {
                Ok(size - first)
            }
        } else {
            Ok(r.count as int)
        }
    }
}

/// The empty slice of a value: the empty string for a string, the empty
/// sequence otherwise.
pub open spec fn empty_slice(v: Val) -> Val {
    if scalar_text(v) is Some {
        Val::Scalar(Seq::empty())
    } else {
        Val::Sequence(Seq::empty())
    }
}

/// Message of a decreasing slice of a string.
pub open spec fn decreasing_msg(first: int, last: int) -> Seq<char> {
    "Decreasing ranges aren't allowed for slicing strings (as it would give reversed text). The index range was: first = "@
        + int_text(first) + ", last = "@ + int_text(last)
}

/// Result of slicing a sequence or string (of `size` items, `is_str` for a
/// string) with a range; `Ok(None)` stands for the items
/// `first, first±1, ...` taken `n` times, with `n` the second value.
pub open spec fn slice_plan(r: RangeSpec, size: int, is_str: bool) -> Result<Option<int>, Seq<char>> {
    if !r.unbounded && r.count == 0 {
        Ok(Some(0))
    } else {
        match slice_size(r, size, is_str) {
            Err(m) => Err(m),
            Ok(n) => if n == 0 {
                Ok(Some(0))
            } else if is_str && !r.ascending && n > 1 {
                if r.affected_by_string_slicing_bug && n == 2 {
                    Ok(None)
                } else {
                    Err(decreasing_msg(r.start as int, r.start - (n - 1)))
                }
            } else {
                Ok(Some(n))
            },
        }
    }
}

/// Index of item `k` of a slice.
pub open spec fn slice_index(r: RangeSpec, k: int) -> int {
    if r.ascending {
        r.start + k
    } else {
        r.start - k
    }
}

/// The value sliced by a range: `n` items (or characters) from the start of
/// the range in its direction.
pub open spec fn sliced(v: Val, r: RangeSpec, n: int) -> Val {
    match seq_items(v) {
        Some(items) => Val::Sequence(Seq::new(n as nat, |k: int| items[slice_index(r, k)])),
        None => {
            let s = scalar_text(v).unwrap();
            Val::Scalar(Seq::new(n as nat, |k: int| s[slice_index(r, k)]))
        },
    }
}

/// Result of slicing a sequence or string with a range (the target must be
/// one of these).
pub open spec fn slice_result(v: Val, r: RangeSpec) -> Result<Val, Seq<char>> {
    let (size, is_str) = slice_len(v).unwrap();
    match slice_plan(r, size, is_str) {
        Err(m) => Err(m),
        Ok(None) => Ok(Val::Scalar(Seq::empty())),
        Ok(Some(n)) => if n == 0 {
            Ok(empty_slice(v))
        } else {
            Ok(sliced(v, r, n))
        },
    }
}

/// The empty slice of a value: the empty string for a string, the empty
/// sequence otherwise.
pub fn empty_slice_result(t: &TModel) -> (r: TModel)
    ensures
        r@ == empty_slice(t@),
{
    if scalar_text_of(t).is_some() {
        let s = String::new();
        proof {
            assert(s@ =~= Seq::<char>::empty());
        }
        TModel::Scalar(s)
    } else {
        let v: Vec<TModel> = Vec::new();
        proof {
            assert(vals(v@) =~= Seq::<Val>::empty());
        }
        TModel::Sequence(v)
    }
}

fn bounds_error(what: &str, idx: i64, size: usize, is_str: bool) -> (e: TemplateError)
    ensures
        is_misc(e, out_of_bounds_msg(what@, idx as int, size as int, is_str)),
{
    let mut s = String::from_str("Range ");
    push_str(&mut s, what);
    push_str(&mut s, " index ");
    let t = crate::text::i64_text(idx);
    push_str(&mut s, t.as_str());
    push_str(&mut s, " is out of bounds, because the sliced ");
    push_str(&mut s, if is_str { "string" } else { "sequence" });
    push_str(&mut s, " has only ");
    let u = crate::text::usize_text(size);
    push_str(&mut s, u.as_str());
    push_str(&mut s, " ");
    push_str(&mut s, if is_str { "character" } else { "element" });
    push_str(&mut s, "(s). (Note that indices are 0-based).");
    TemplateError::misc(s)
}

fn negative_index_error(what: &str, idx: i64) -> (e: TemplateError)
    ensures
        is_misc(e, negative_index_msg(what@, idx as int)),
{
    let mut s = String::from_str("Negative range ");
    push_str(&mut s, what);
    push_str(&mut s, " index (");
    let t = crate::text::i64_text(idx);
    push_str(&mut s, t.as_str());
    push_str(&mut s, ") isn't allowed for a range used for slicing.");
    TemplateError::misc(s)
}

/// Number of items a non-empty slicing range takes, or its error.
fn slice_size_of(r: &RangeSpec, size: usize, is_str: bool) -> (res: Result<usize, TemplateError>)
    requires
        range_wf(*r),
        r.unbounded || r.count > 0,
    ensures
        match slice_size(*r, size as int, is_str) {
            Ok(n) => res == Ok::<usize, TemplateError>(n as usize) && 0 <= n <= size && (
            !r.ascending ==> n <= r.start + 1),
            Err(m) => res matches Err(e) && is_misc(e, m),
        },
{
    let first = r.start;
    if first < 0 {
        return Err(negative_index_error("start", first));
    }
    let f: usize = first as usize;
    let start_ok = if r.adaptive && r.ascending {
        (first as u64) <= (size as u64)
    } else {
        (first as u64) < (size as u64)
    };
    if !start_ok {
        return Err(bounds_error("start", first, size, is_str));
    }
    assert(f as int == first as int);
    if r.unbounded {
        return Ok(size - f);
    }
    let last: i64 = if r.ascending {
        (first as i128 + (r.count - 1) as i128) as i64
    } else {
        (first as i128 - (r.count - 1) as i128) as i64
    };
    assert(last as int == range_item(*r, r.count - 1));
    if last < 0 {
        if !r.adaptive {
            return Err(negative_index_error("end", last));
        }
        return Ok(f + 1);
    }
    if (last as u64) >= (size as u64) {
        if !r.adaptive {
            return Err(bounds_error("end", last, size, is_str));
        }
        return Ok(size - f);
    }
    Ok(r.count)
}

/// Slices a sequence or a string with a range.
pub fn slice_with_range(t: &TModel, r: &RangeSpec) -> (res: Result<TModel, TemplateError>)
    requires
        range_wf(*r),
        crate::sequences::range_ok(t@),
    ensures
        slice_len(t@) is None ==> (res matches Err(e) && is_type_mismatch(
            e,
            "sequence"@,
            type_name_of(t@),
        )),
        slice_len(t@) is Some ==> match slice_result(t@, *r) {
            Ok(x) => res matches Ok(v) && v@ == x,
            Err(m) => res matches Err(e) && is_misc(e, m),
        },
        crate::sequences::val_ok(t@) ==> (res matches Ok(v) ==> crate::sequences::val_ok(v@)),
{
    let text = scalar_text_of(t);
    let (items, is_str): (Vec<TModel>, bool) = match crate::sequences::sequence_items(t, "slice") {
        Ok(v) => (v, false),
        Err(_) => {
            if text.is_none() {
                return Err(TemplateError::type_mismatch("sequence", t.kind_name()));
            }
            (Vec::new(), true)
        },
    };
    proof {
        lemma_vals_len(items@);
    }
    let ghost iv = vals(items@);
    let cs: Vec<char> = match text {
        Some(s) => crate::text::chars_of(s.as_str()),
        None => Vec::new(),
    };
    let ghost sv: Seq<char> = cs@;
    let size: usize = if is_str {
        cs.len()
    } else {
        items.len()
    };
    assert(slice_len(t@) == Some((size as int, is_str)));
    if !r.unbounded && r.count == 0 {
        return Ok(empty_slice_result(t));
    }
    let n = slice_size_of(r, size, is_str)?;
    if n == 0 {
        return Ok(empty_slice_result(t));
    }
    if is_str && !r.ascending && n > 1 {
        if r.affected_by_string_slicing_bug && n == 2 {
            let s = String::new();
            proof {
                assert(s@ =~= Seq::<char>::empty());
            }
            return Ok(TModel::Scalar(s));
        }
        let mut m = String::from_str(
            "Decreasing ranges aren't allowed for slicing strings (as it would give reversed text). The index range was: first = ",
        );
        let a = crate::text::i64_text(r.start);
        push_str(&mut m, a.as_str());
        push_str(&mut m, ", last = ");
        let b = crate::text::i64_text((r.start as i128 - (n as i128 - 1)) as i64);
        push_str(&mut m, b.as_str());
        return Err(TemplateError::misc(m));
    }
    proof {
        assert forall|k: int| 0 <= k < n implies 0 <= #[trigger] slice_index(*r, k) < size by {
            if !r.unbounded {
                assert(r.count > 0);
            }
        }
    }
    proof {
        if crate::sequences::val_ok(t@) {
            crate::sequences::lemma_val_ok_items(t@);
        }
    }
    if is_str {
        let mut out = String::new();
        let mut k: usize = 0;
        while k < n
            invariant
                0 <= k <= n,
                n <= size,
                size == cs.len(),
                forall|j: int| 0 <= j < n ==> 0 <= #[trigger] slice_index(*r, j) < size,
                out@ == Seq::new(k as nat, |j: int| cs@[slice_index(*r, j)]),
            decreases n - k,
        {
            assert(0 <= slice_index(*r, k as int) < size);
            let idx: usize = if r.ascending {
                (r.start as i128 + k as i128) as usize
            } else {
                (r.start as i128 - k as i128) as usize
            };
            assert(idx == slice_index(*r, k as int));
            crate::text::push_char(&mut out, cs[idx]);
            proof {
                assert(Seq::new(k as nat + 1, |j: int| cs@[slice_index(*r, j)]) =~= Seq::new(
                    k as nat,
                    |j: int| cs@[slice_index(*r, j)],
                ).push(cs@[idx as int]));
            }
            k += 1;
        }
        Ok(TModel::Scalar(out))
    } else {
        let mut out: Vec<TModel> = Vec::new();
        let mut k: usize = 0;
        while k < n
            invariant
                0 <= k <= n,
                n <= size,
                size == items.len(),
                iv == vals(items@),
                iv.len() == items.len(),
                forall|j: int| 0 <= j < n ==> 0 <= #[trigger] slice_index(*r, j) < size,
                vals(out@) == Seq::new(k as nat, |j: int| iv[slice_index(*r, j)]),
                seq_items(t@) == Some(iv),
                crate::sequences::val_ok(t@) ==> forall|j: int| 0 <= j < iv.len() ==> crate::sequences::val_ok(#[trigger] iv[j]),
            decreases n - k,
        {
            assert(0 <= slice_index(*r, k as int) < size);
            let idx: usize = if r.ascending {
                (r.start as i128 + k as i128) as usize
            } else {
                (r.start as i128 - k as i128) as usize
            };
            assert(idx == slice_index(*r, k as int));
            proof {
                lemma_vals_index(items@, idx as int);
            }
            let x = items[idx].copy_model();
            proof {
                lemma_vals_push(out@, x);
                assert(Seq::new(k as nat + 1, |j: int| iv[slice_index(*r, j)]) =~= Seq::new(
                    k as nat,
                    |j: int| iv[slice_index(*r, j)],
                ).push(x@));
            }
            out.push(x);
            k += 1;
        }
        Ok(TModel::Sequence(out))
    }
}

} // verus!
