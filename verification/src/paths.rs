//! Template names: normalizing `.`/`..` segments, resolving a name relative to
//! the current template, and the candidate names of a `*` (acquisition) path.
use vstd::prelude::*;
use crate::text::{
    chars_of, contains_str, join_range, join_with, last_index_of, push_str, rfind_char,
    split_char, split_on, starts_with, str_eq, strings_view, has_prefix, contains_seq, substring,
};

verus! {

/// One step of path normalization: empty and `.` segments vanish, `..`
/// removes the previous segment unless that is itself `..`.
pub open spec fn norm_step(out: Seq<Seq<char>>, seg: Seq<char>) -> Seq<Seq<char>> {
    if seg == Seq::<char>::empty() || seg == "."@ {
        out
    } else if seg == ".."@ {
        if out.len() > 0 && out.last() != ".."@ {
            out.drop_last()
        } else {
            out.push(".."@)
        }
    } else {
        out.push(seg)
    }
}

/// Segments kept after normalizing the segments `segs`.
pub open spec fn norm_segments(segs: Seq<Seq<char>>) -> Seq<Seq<char>>
    decreases segs.len(),
{
    if segs.len() == 0 {
        Seq::empty()
    } else {
        norm_step(norm_segments(segs.drop_last()), segs.last())
    }
}

/// A template path with `./` and `../` segments folded away.
pub open spec fn normalized_path(p: Seq<char>) -> Seq<char> {
    join_with(norm_segments(split_on(p, '/')), "/"@)
}

/// Folds `.` and `..` segments of a template path.
pub fn normalize_template_path(p: &str) -> (r: String)
    ensures
        r@ == normalized_path(p@),
{
    let segs = split_char(p, '/');
    let mut out: Vec<String> = Vec::new();
    let mut i: usize = 0;
    while i < segs.len()
        invariant
            i <= segs.len(),
            strings_view(segs@) == split_on(p@, '/'),
            strings_view(out@) == norm_segments(strings_view(segs@).take(i as int)),
        decreases segs.len() - i,
    {
        let seg = segs[i].as_str();
        let ghost before = strings_view(out@);
        assert(strings_view(segs@).take(i as int + 1).drop_last() =~= strings_view(segs@).take(
            i as int,
        ));
        proof {
            reveal_strlit("");
            reveal_strlit(".");
            reveal_strlit("..");
            assert(""@ =~= Seq::<char>::empty());
        }
        let ghost seg_v = strings_view(segs@)[i as int];
        assert(seg_v == seg@);
        if str_eq(seg, "") || str_eq(seg, ".") {
            assert(norm_step(before, seg_v) == before);
        } else if str_eq(seg, "..") {
            let pop = out.len() > 0 && !str_eq(out[out.len() - 1].as_str(), "..");
            assert(out.len() > 0 ==> before.last() == out@[out.len() - 1]@);
            if pop {
                out.pop();
                assert(strings_view(out@) =~= before.drop_last());
            } else {
                out.push(String::from_str(".."));
                assert(strings_view(out@) =~= before.push(".."@));
            }
        } else {
            out.push(segs[i].clone());
            assert(strings_view(out@) =~= before.push(segs@[i as int]@));
        }
        i += 1;
    }
    assert(strings_view(segs@).take(i as int) =~= strings_view(segs@));
    assert(strings_view(out@).subrange(0, out.len() as int) =~= strings_view(out@));
    join_range(&out, 0, out.len(), "/")
}

} // verus!

verus! {

/// Full name of template `target` referred to from template `base`: an
/// absolute name (leading `/` or containing `://`) stays as is; a relative
/// one is taken from the directory of `base` and normalized.
pub open spec fn resolved_name(base: Seq<char>, target: Seq<char>) -> Seq<char> {
    if has_prefix(target, "/"@) || contains_seq(target, "://"@) {
        target
    } else {
        let joined = match last_index_of(base, '/') {
            Some(i) => {
                if i == 0 {
                    "/"@ + target
                } else {
                    base.take(i) + "/"@ + target
                }
            },
            None => target,
        };
        normalized_path(joined)
    }
}

/// Resolves a template name relative to the template `current_template_name`.
pub fn resolve_template_name(current_template_name: &str, target: &str) -> (r: String)
    ensures
        r@ == resolved_name(current_template_name@, target@),
{
    if starts_with(target, "/") || contains_str(target, "://") {
        return String::from_str(target);
    }
    let base = chars_of(current_template_name);
    proof {
        crate::text::lemma_last_index_of(base@, '/');
    }
    let joined = match rfind_char(&base, '/') {
        Some(i) => {
            let mut j = substring(&base, 0, i);
            assert(base@.subrange(0, i as int) =~= current_template_name@.take(i as int));
            push_str(&mut j, "/");
            push_str(&mut j, target);
            j
        },
        None => String::from_str(target),
    };
    proof {
        if let Some(i) = last_index_of(current_template_name@, '/') {
            if i == 0 {
                assert(current_template_name@.take(0) =~= Seq::<char>::empty());
            }
        }
    }
    normalize_template_path(joined.as_str())
}

} // verus!

verus! {

/// Path-segment state of the acquisition scan: the kept segments and the
/// position of the last `*` among them (an earlier `*` is dropped).
pub open spec fn acq_step(state: (Seq<Seq<char>>, Option<int>), t: Seq<char>) -> (
    Seq<Seq<char>>,
    Option<int>,
) {
    let cleaned = state.0;
    if t == "*"@ {
        let c2 = match state.1 {
            Some(idx) => cleaned.remove(idx),
            None => cleaned,
        };
        (c2.push(t), Some(c2.len() as int))
    } else {
        (cleaned.push(t), state.1)
    }
}

/// The acquisition scan over path segments.
pub open spec fn acq_state(tokens: Seq<Seq<char>>) -> (Seq<Seq<char>>, Option<int>)
    decreases tokens.len(),
{
    if tokens.len() == 0 {
        (Seq::empty(), None)
    } else {
        acq_step(acq_state(tokens.drop_last()), tokens.last())
    }
}

/// A directory prefix followed by `/`, or nothing for the root.
pub open spec fn dir_prefix(p: Seq<char>) -> Seq<char> {
    if p.len() == 0 {
        p
    } else {
        p + "/"@
    }
}

/// Names tried for an acquisition path (one with a `*` segment): the part
/// after the last `*` is looked up under the part before it, then under each
/// shorter directory prefix down to the root.  A path without `*` is its only
/// candidate.
pub open spec fn acquisition(full: Seq<char>) -> Seq<Seq<char>> {
    let st = acq_state(split_on(full, '/'));
    let cleaned = st.0;
    match st.1 {
        None => seq![full],
        Some(ai) => {
            let resource = join_with(cleaned.subrange(ai + 1, cleaned.len() as int), "/"@);
            Seq::new(
                (ai + 1) as nat,
                |k: int| dir_prefix(join_with(cleaned.take(ai - k), "/"@)) + resource,
            )
        },
    }
}

/// Optional index as an integer.
pub open spec fn opt_index(o: Option<usize>) -> Option<int> {
    match o {
        Some(i) => Some(i as int),
        None => None,
    }
}

pub proof fn lemma_acq_state_bound(tokens: Seq<Seq<char>>)
    ensures
        acq_state(tokens).1 matches Some(i) ==> 0 <= i < acq_state(tokens).0.len(),
    decreases tokens.len(),
{
    if tokens.len() > 0 {
        lemma_acq_state_bound(tokens.drop_last());
    }
}

/// Candidate template names of a path with a `*` segment, most specific first.
pub fn acquisition_candidates(full: &str) -> (r: Vec<String>)
    ensures
        strings_view(r@) == acquisition(full@),
{
    let tokens = split_char(full, '/');
    let mut cleaned: Vec<String> = Vec::new();
    let mut last: Option<usize> = None;
    let mut i: usize = 0;
    proof {
        reveal_strlit("*");
    }
    while i < tokens.len()
        invariant
            i <= tokens.len(),
            strings_view(tokens@) == split_on(full@, '/'),
            (strings_view(cleaned@), opt_index(last)) == acq_state(
                strings_view(tokens@).take(i as int),
            ),
            last matches Some(k) ==> k < cleaned.len(),
        decreases tokens.len() - i,
    {
        let ghost before = strings_view(cleaned@);
        assert(strings_view(tokens@).take(i as int + 1).drop_last() =~= strings_view(tokens@).take(
            i as int,
        ));
        let t = tokens[i].clone();
        if str_eq(t.as_str(), "*") {
            match last {
                Some(idx) => {
                    cleaned.remove(idx);
                    assert(strings_view(cleaned@) =~= before.remove(idx as int));
                },
                None => {},
            }
            let ghost mid = strings_view(cleaned@);
            last = Some(cleaned.len());
            cleaned.push(t);
            assert(strings_view(cleaned@) =~= mid.push(tokens@[i as int]@));
        } else {
            cleaned.push(t);
            assert(strings_view(cleaned@) =~= before.push(tokens@[i as int]@));
        }
        i += 1;
    }
    assert(strings_view(tokens@).take(i as int) =~= strings_view(tokens@));
    let mut out: Vec<String> = Vec::new();
    match last {
        None => {
            out.push(String::from_str(full));
            assert(strings_view(out@) =~= seq![full@]);
            out
        },
        Some(ai) => {
            let resource = join_range(&cleaned, ai + 1, cleaned.len(), "/");
            let ghost cv = strings_view(cleaned@);
            let mut k: usize = 0;
            while k <= ai
                invariant
                    ai < cleaned.len(),
                    k <= ai + 1,
                    cv == strings_view(cleaned@),
                    resource@ == join_with(cv.subrange(ai + 1, cv.len() as int), "/"@),
                    strings_view(out@) == Seq::new(
                        k as nat,
                        |j: int| dir_prefix(join_with(cv.take(ai - j), "/"@)) + resource@,
                    ),
                decreases ai + 1 - k,
            {
                let l = ai - k;
                let mut p = join_range(&cleaned, 0, l, "/");
                assert(cv.subrange(0, l as int) =~= cv.take(l as int));
                if !p.as_str().is_empty() {
                    push_str(&mut p, "/");
                }
                proof {
                    reveal_strlit("/");
                }
                let ghost pv = p@;
                assert(pv == dir_prefix(join_with(cv.take(ai - k), "/"@)));
                push_str(&mut p, resource.as_str());
                let ghost prev_out = strings_view(out@);
                out.push(p);
                assert(strings_view(out@) =~= prev_out.push(pv + resource@));
                assert(strings_view(out@) =~= Seq::new(
                    (k + 1) as nat,
                    |j: int| dir_prefix(join_with(cv.take(ai - j), "/"@)) + resource@,
                ));
                k += 1;
            }
            out
        },
    }
}

} // verus!
