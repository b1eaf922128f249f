//! Template values: strings, numbers, booleans, dates, sequences, hashes,
//! numeric ranges and markup.
use vstd::prelude::*;
use crate::number::TNumber;
use crate::output_format::OutputFormatKind;

verus! {

/// Kind of a date-like value.
#[derive(Debug, Clone, Copy, PartialEq, Eq, Structural)]
pub enum DateType {
    Date,
    Time,
    DateTime,
    Unknown,
}

/// A date-like value: an instant (milliseconds since the epoch) and its kind.
#[derive(Debug, Clone, Copy, PartialEq, Eq)]
pub struct DateValue {
    pub millis: i64,
    pub kind: DateType,
}

/// A numeric range: `count` integers from `start` upward or downward, or
/// right-unbounded (`start..`).  `adaptive` marks the `..*` form, and
/// `affected_by_string_slicing_bug` the inclusive `a..b` form, whose
/// two-character decreasing string slice gives the empty string.
#[derive(Debug, Clone, Copy, PartialEq, Eq)]
pub struct RangeSpec {
    pub start: i64,
    pub count: usize,
    pub ascending: bool,
    pub unbounded: bool,
    pub adaptive: bool,
    pub affected_by_string_slicing_bug: bool,
}

/// A template value.
#[derive(Debug)]
pub enum TModel {
    /// Null or missing.
    Nothing,
    Scalar(String),
    Number(TNumber),
    Boolean(bool),
    Date(DateValue),
    Sequence(Vec<TModel>),
    /// Items that can be listed but not indexed.
    Collection(Vec<TModel>),
    /// Key-value pairs in insertion order, keys distinct.
    Hash(Vec<(String, TModel)>),
    Range(RangeSpec),
    /// Markup of an output format, with the plain text it was escaped from
    /// when known.
    Markup { format: OutputFormatKind, markup: String, plain: Option<String> },
}

/// The mathematical value of a template value.
pub enum Val {
    Nothing,
    Scalar(Seq<char>),
    Number(TNumber),
    Boolean(bool),
    Date(DateValue),
    Sequence(Seq<Val>),
    Collection(Seq<Val>),
    Hash(Seq<(Seq<char>, Val)>),
    Range(RangeSpec),
    Markup { format: OutputFormatKind, markup: Seq<char>, plain: Option<Seq<char>> },
}

/// Values of a list of template values.
pub open spec fn vals(s: Seq<TModel>) -> Seq<Val>
    decreases s,
{
    if s.len() == 0 {
        Seq::empty()
    } else {
        vals(s.drop_last()).push(s.last().view())
    }
}

/// Values of hash entries.
pub open spec fn entry_vals(s: Seq<(String, TModel)>) -> Seq<(Seq<char>, Val)>
    decreases s,
{
    if s.len() == 0 {
        Seq::empty()
    } else {
        entry_vals(s.drop_last()).push((s.last().0@, s.last().1.view()))
    }
}

impl View for TModel {
    type V = Val;

    open spec fn view(&self) -> Val
        decreases self,
    {
        match self {
            TModel::Nothing => Val::Nothing,
            TModel::Scalar(s) => Val::Scalar(s@),
            TModel::Number(n) => Val::Number(*n),
            TModel::Boolean(b) => Val::Boolean(*b),
            TModel::Date(d) => Val::Date(*d),
            TModel::Sequence(v) => Val::Sequence(vals(v@)),
            TModel::Collection(v) => Val::Collection(vals(v@)),
            TModel::Hash(v) => Val::Hash(entry_vals(v@)),
            TModel::Range(r) => Val::Range(*r),
            TModel::Markup { format, markup, plain } => Val::Markup {
                format: *format,
                markup: markup@,
                plain: match plain {
                    Some(p) => Some(p@),
                    None => None,
                },
            },
        }
    }
}

impl TModel {
    /// Deep copy of a value.
    pub fn copy_model(&self) -> (r: TModel)
        ensures
            r@ == self@,
        decreases self,
    {
        match self {
            TModel::Nothing => TModel::Nothing,
            TModel::Scalar(s) => TModel::Scalar(s.clone()),
            TModel::Number(n) => TModel::Number(*n),
            TModel::Boolean(b) => TModel::Boolean(*b),
            TModel::Date(d) => TModel::Date(*d),
            TModel::Sequence(v) => TModel::Sequence(copy_items(v)),
            TModel::Collection(v) => TModel::Collection(copy_items(v)),
            TModel::Hash(v) => TModel::Hash(copy_entries(v)),
            TModel::Range(r) => TModel::Range(*r),
            TModel::Markup { format, markup, plain } => TModel::Markup {
                format: *format,
                markup: markup.clone(),
                plain: match plain {
                    Some(p) => Some(p.clone()),
                    None => None,
                },
            },
        }
    }
}

/// Values of a list with one more item.
pub proof fn lemma_vals_push(s: Seq<TModel>, x: TModel)
    ensures
        vals(s.push(x)) == vals(s).push(x@),
        vals(s.push(x)).len() == s.len() + 1,
{
    assert(s.push(x).drop_last() =~= s);
    lemma_vals_len(s.push(x));
}

/// The values of a list are as many as its items.
pub proof fn lemma_vals_len(s: Seq<TModel>)
    ensures
        vals(s).len() == s.len(),
    decreases s.len(),
{
    if s.len() > 0 {
        lemma_vals_len(s.drop_last());
        assert(vals(s) == vals(s.drop_last()).push(s.last()@));
    }
}

/// Value `i` of a list is the value of item `i`.
pub proof fn lemma_vals_index(s: Seq<TModel>, i: int)
    requires
        0 <= i < s.len(),
    ensures
        vals(s)[i] == s[i]@,
    decreases s.len(),
{
    lemma_vals_len(s.drop_last());
    assert(vals(s) == vals(s.drop_last()).push(s.last()@));
    if i < s.len() - 1 {
        lemma_vals_index(s.drop_last(), i);
        assert(s.drop_last()[i] == s[i]);
    }
}

/// Values of hash entries with one more entry.
pub proof fn lemma_entry_vals_push(s: Seq<(String, TModel)>, x: (String, TModel))
    ensures
        entry_vals(s.push(x)) == entry_vals(s).push((x.0@, x.1@)),
{
    assert(s.push(x).drop_last() =~= s);
}

/// The values of hash entries are as many as the entries.
pub proof fn lemma_entry_vals_len(s: Seq<(String, TModel)>)
    ensures
        entry_vals(s).len() == s.len(),
    decreases s.len(),
{
    if s.len() > 0 {
        lemma_entry_vals_len(s.drop_last());
        assert(entry_vals(s) == entry_vals(s.drop_last()).push((s.last().0@, s.last().1@)));
    }
}

/// Entry `i` of the values of hash entries is the value of entry `i`.
pub proof fn lemma_entry_vals_index(s: Seq<(String, TModel)>, i: int)
    requires
        0 <= i < s.len(),
    ensures
        entry_vals(s)[i] == (s[i].0@, s[i].1@),
    decreases s.len(),
{
    lemma_entry_vals_len(s.drop_last());
    assert(entry_vals(s) == entry_vals(s.drop_last()).push((s.last().0@, s.last().1@)));
    if i < s.len() - 1 {
        lemma_entry_vals_index(s.drop_last(), i);
        assert(s.drop_last()[i] == s[i]);
    }
}

/// Deep copy of a list of values.
pub fn copy_items(v: &Vec<TModel>) -> (r: Vec<TModel>)
    ensures
        vals(r@) == vals(v@),
    decreases v,
{
    let mut r: Vec<TModel> = Vec::new();
    let mut i: usize = 0;
    while i < v.len()
        invariant
            i <= v.len(),
            vals(r@) == vals(v@.take(i as int)),
        decreases v.len() - i,
    {
        let m = v[i].copy_model();
        proof {
            lemma_vals_push(r@, m);
            lemma_vals_push(v@.take(i as int), v@[i as int]);
            assert(v@.take(i as int).push(v@[i as int]) =~= v@.take(i as int + 1));
        }
        r.push(m);
        i += 1;
    }
    assert(v@.take(i as int) =~= v@);
    r
}

/// Deep copy of hash entries.
pub fn copy_entries(v: &Vec<(String, TModel)>) -> (r: Vec<(String, TModel)>)
    ensures
        entry_vals(r@) == entry_vals(v@),
    decreases v,
{
    let mut r: Vec<(String, TModel)> = Vec::new();
    let mut i: usize = 0;
    while i < v.len()
        invariant
            i <= v.len(),
            entry_vals(r@) == entry_vals(v@.take(i as int)),
        decreases v.len() - i,
    {
        let k = v[i].0.clone();
        let m = v[i].1.copy_model();
        proof {
            lemma_entry_vals_push(r@, (k, m));
            lemma_entry_vals_push(v@.take(i as int), v@[i as int]);
            assert(v@.take(i as int).push(v@[i as int]) =~= v@.take(i as int + 1));
        }
        r.push((k, m));
        i += 1;
    }
    assert(v@.take(i as int) =~= v@);
    r
}

} // verus!

verus! {

/// Name of a value's type, as used in error messages.
pub open spec fn type_name_of(v: Val) -> Seq<char> {
    match v {
        Val::Nothing => "nothing"@,
        Val::Scalar(_) => "string"@,
        Val::Number(_) => "number"@,
        Val::Boolean(_) => "boolean"@,
        Val::Date(_) => "date"@,
        Val::Sequence(_) => "sequence"@,
        Val::Collection(_) => "collection"@,
        Val::Hash(_) => "hash"@,
        Val::Range(_) => "sequence"@,
        Val::Markup { .. } => "markup_output"@,
    }
}

/// Name of a date kind as messages spell it.
pub open spec fn date_type_name(k: DateType) -> Seq<char> {
    match k {
        DateType::Date => "DATE"@,
        DateType::Time => "TIME"@,
        DateType::DateTime => "DATETIME"@,
        DateType::Unknown => "UNKNOWN"@,
    }
}

/// Name of a date kind in messages (`DATE`, `TIME`, `DATETIME`, `UNKNOWN`).
pub fn java_date_type_name(kind: DateType) -> (r: &'static str)
    ensures
        r@ == date_type_name(kind),
{
    match kind {
        DateType::Date => "DATE",
        DateType::Time => "TIME",
        DateType::DateTime => "DATETIME",
        DateType::Unknown => "UNKNOWN",
    }
}

impl DateType {
    /// Name of the date kind.
    pub fn name(self) -> (r: &'static str)
        ensures
            r@ == date_type_name(self),
    {
        java_date_type_name(self)
    }
}

impl TModel {
    /// Name of the value's type.
    pub fn kind_name(&self) -> (r: &'static str)
        ensures
            r@ == type_name_of(self@),
    {
        match self {
            TModel::Nothing => "nothing",
            TModel::Scalar(_) => "string",
            TModel::Number(_) => "number",
            TModel::Boolean(_) => "boolean",
            TModel::Date(_) => "date",
            TModel::Sequence(_) => "sequence",
            TModel::Collection(_) => "collection",
            TModel::Hash(_) => "hash",
            TModel::Range(_) => "sequence",
            TModel::Markup { .. } => "markup_output",
        }
    }

    /// Whether the value is null or missing.
    pub fn is_nothing(&self) -> (r: bool)
        ensures
            r == (self@ is Nothing),
    {
        match self {
            TModel::Nothing => true,
            _ => false,
        }
    }

    /// A string value.
    pub fn from_scalar(s: String) -> (r: TModel)
        ensures
            r@ == Val::Scalar(s@),
    {
        TModel::Scalar(s)
    }

    /// A number value.
    pub fn from_number(n: TNumber) -> (r: TModel)
        ensures
            r@ == Val::Number(n),
    {
        TModel::Number(n)
    }

    /// A boolean value.
    pub fn from_boolean(b: bool) -> (r: TModel)
        ensures
            r@ == Val::Boolean(b),
    {
        TModel::Boolean(b)
    }

    /// A sequence of the given items.
    pub fn from_sequence(items: Vec<TModel>) -> (r: TModel)
        ensures
            r@ == Val::Sequence(vals(items@)),
    {
        TModel::Sequence(items)
    }
}

/// Description of a value's type with its article: `a Null` for a missing
/// value, `a <type>` otherwise.
pub open spec fn type_desc(v: Val) -> Seq<char> {
    if v is Nothing {
        "a Null"@
    } else {
        "a "@ + type_name_of(v)
    }
}

/// Description of a value's type with its article.
pub fn ftl_type_desc(m: &TModel) -> (r: String)
    ensures
        r@ == type_desc(m@),
{
    if m.is_nothing() {
        String::from_str("a Null")
    } else {
        let mut s = String::from_str("a ");
        crate::text::push_str(&mut s, m.kind_name());
        s
    }
}

} // verus!
