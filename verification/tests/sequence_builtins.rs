use freemarker::ast::{Expr, ExprKind, Span};
use freemarker::collation::collator_cmp;
use freemarker::error::TemplateError;
use freemarker::eval::{eval, interpolated, Env};
use freemarker::number::TNumber;
use freemarker::seq_builtins::{join, JoinItem};
use freemarker::sequences::models_equal;
use freemarker::text::utf16_cmp;
use freemarker::value::{java_date_type_name, DateType, DateValue, RangeSpec, TModel};
use std::cmp::Ordering;

// ---- values ----

fn s(x: &str) -> TModel {
    TModel::Scalar(x.to_string())
}

fn n(x: i64) -> TModel {
    TModel::Number(TNumber::Long(x))
}

fn list(items: Vec<TModel>) -> TModel {
    TModel::Sequence(items)
}

fn hash(entries: Vec<(&str, TModel)>) -> TModel {
    TModel::Hash(entries.into_iter().map(|(k, v)| (k.to_string(), v)).collect())
}

fn date(millis: i64, kind: DateType) -> TModel {
    TModel::Date(DateValue { millis, kind })
}

// ---- expressions ----

fn ex(kind: ExprKind) -> Expr {
    Expr::new(kind, Span { line: 1, col: 1 })
}

fn id(name: &str) -> Expr {
    ex(ExprKind::Ident(name.to_string()))
}

fn st(x: &str) -> Expr {
    ex(ExprKind::Str(x.to_string()))
}

fn num(x: i64) -> Expr {
    ex(ExprKind::Num(TNumber::Long(x)))
}

fn decimal(unscaled: i64, scale: u32) -> Expr {
    ex(ExprKind::Num(TNumber::Decimal { unscaled, scale }))
}

fn boolean(b: bool) -> Expr {
    ex(ExprKind::Bool(b))
}

fn nums(xs: &[i64]) -> Expr {
    ex(ExprKind::ListLit(xs.iter().map(|x| num(*x)).collect()))
}

fn lit(items: Vec<Expr>) -> Expr {
    ex(ExprKind::ListLit(items))
}

fn paren(e: Expr) -> Expr {
    ex(ExprKind::Paren(Box::new(e)))
}

fn bi(target: Expr, name: &str) -> Expr {
    ex(ExprKind::BuiltIn { target: Box::new(target), name: name.to_string(), args: None })
}

fn call(target: Expr, name: &str, args: Vec<Expr>) -> Expr {
    ex(ExprKind::BuiltIn { target: Box::new(target), name: name.to_string(), args: Some(args) })
}

// ---- evaluation ----

fn env_of(vars: Vec<(&str, TModel)>) -> Env {
    Env {
        vars: vars.into_iter().map(|(k, v)| (k.to_string(), v)).collect(),
        classic_compatible: false,
    }
}

fn run(vars: Vec<(&str, TModel)>, e: &Expr) -> Result<TModel, TemplateError> {
    eval(&env_of(vars), e)
}

fn out(vars: Vec<(&str, TModel)>, e: &Expr) -> String {
    match interpolated(&env_of(vars), e) {
        Ok(Some(m)) => text(&m),
        Ok(None) => String::new(),
        Err(err) => panic!("evaluation failed: {err:?}"),
    }
}

fn fail(vars: Vec<(&str, TModel)>, e: &Expr) -> TemplateError {
    match interpolated(&env_of(vars), e) {
        Ok(v) => panic!("expected an error, got {v:?}"),
        Err(err) => err,
    }
}

fn msg(e: &TemplateError) -> String {
    match e {
        TemplateError::Misc { message } => message.clone(),
        TemplateError::InvalidReference { name } => name.clone(),
        TemplateError::TypeMismatch { expected, actual } => format!("{expected}/{actual}"),
    }
}

fn text(m: &TModel) -> String {
    match m {
        TModel::Scalar(x) => x.clone(),
        TModel::Number(d) => d.to_plain_string(),
        TModel::Boolean(b) => b.to_string(),
        other => panic!("not a simple value: {other:?}"),
    }
}

fn joined(m: &TModel, sep: &str) -> String {
    let items: Vec<JoinItem> = match m {
        TModel::Sequence(v) => v
            .iter()
            .map(|x| match x {
                TModel::Nothing => JoinItem::Skip,
                other => JoinItem::Text(text(other)),
            })
            .collect(),
        other => panic!("not a sequence: {other:?}"),
    };
    join(&items, sep, None, None).unwrap()
}

fn list_with_null() -> Vec<(&'static str, TModel)> {
    vec![("listWithNull", list(vec![s("a"), TModel::Nothing, s("c")]))]
}

fn names_root() -> Vec<(&'static str, TModel)> {
    vec![("names", list(vec![s("Joe"), s("Fred"), s("Joe"), s("Susan")]))]
}

fn no_root() -> Vec<(&'static str, TModel)> {
    vec![]
}

fn is_null_error(e: &TemplateError) -> bool {
    matches!(e, TemplateError::InvalidReference { .. })
}

#[test]
fn utf16_order() {
    assert_eq!(utf16_cmp("a", "b"), Ordering::Less);
    assert_eq!(utf16_cmp("ab", "a"), Ordering::Greater);
}

#[test]
fn collator_order() {
    assert_eq!(collator_cmp("aardvark", "Barbara"), Ordering::Less);
    assert_eq!(collator_cmp("Barbara", "beetroot"), Ordering::Less);
    assert_eq!(collator_cmp("barbara", "Barbara"), Ordering::Less);
    assert_eq!(collator_cmp("Barbara", "BARBARA"), Ordering::Less);
    assert_eq!(collator_cmp("aA", "Aa"), Ordering::Less);
    assert_eq!(collator_cmp("a", "A"), Ordering::Less);
    assert_eq!(collator_cmp("a", "ab"), Ordering::Less);
    assert_eq!(collator_cmp("ab", "a"), Ordering::Greater);
}

#[test]
fn java_date_type_names() {
    assert_eq!(java_date_type_name(DateType::Date), "DATE");
    assert_eq!(java_date_type_name(DateType::Time), "TIME");
    assert_eq!(java_date_type_name(DateType::DateTime), "DATETIME");
    assert_eq!(java_date_type_name(DateType::Unknown), "UNKNOWN");
}

#[test]
fn seq_index_of_missing_var_arg_flows_as_null() {
    let lwn = || id("listWithNull");
    assert_eq!(out(list_with_null(), &call(lwn(), "seq_contains", vec![id("noSuchVar")])), "false");
    assert_eq!(out(list_with_null(), &call(lwn(), "seq_index_of", vec![id("noSuchVar")])), "-1");
    assert_eq!(
        out(list_with_null(), &call(lwn(), "seq_last_index_of", vec![id("noSuchVar")])),
        "-1"
    );
    assert_eq!(out(list_with_null(), &call(lwn(), "seq_contains", vec![st("c")])), "true");
    assert_eq!(out(list_with_null(), &call(lwn(), "seq_index_of", vec![st("c")])), "2");
    assert_eq!(out(list_with_null(), &call(lwn(), "seq_last_index_of", vec![st("a")])), "0");
}

#[test]
fn seq_index_of_from_index() {
    let nm = || id("names");
    assert_eq!(out(names_root(), &call(nm(), "seq_index_of", vec![st("Joe"), num(-2)])), "0");
    assert_eq!(out(names_root(), &call(nm(), "seq_index_of", vec![st("Joe"), num(1)])), "2");
    assert_eq!(out(names_root(), &call(nm(), "seq_index_of", vec![st("Joe"), num(4)])), "-1");
    assert_eq!(out(names_root(), &call(nm(), "seq_last_index_of", vec![st("Joe"), num(1)])), "0");
    assert_eq!(out(names_root(), &call(nm(), "seq_last_index_of", vec![st("Joe"), num(4)])), "2");
    assert_eq!(
        out(names_root(), &call(nm(), "seq_last_index_of", vec![st("Susan"), num(2)])),
        "-1"
    );
    assert_eq!(
        out(no_root(), &call(nums(&[1, 2, 3, 4]), "seq_index_of", vec![num(4), decimal(25, 1)])),
        "3"
    );
    assert_eq!(
        out(no_root(), &call(nums(&[1, 2, 3, 4]), "seq_index_of", vec![num(1), decimal(-5, 1)])),
        "0"
    );
    let err = fail(no_root(), &call(nums(&[1, 2, 3]), "seq_index_of", vec![num(1), id("noSuchVar")]));
    assert_eq!(
        msg(&err),
        "?seq_index_of(...) expects a number as argument #2, but received a Null."
    );
}

#[test]
fn seq_index_of_arg_count() {
    let err = fail(no_root(), &call(nums(&[1, 2, 3]), "seq_index_of", vec![num(1), num(0), num(0)]));
    assert_eq!(msg(&err), "?seq_index_of(...) expects 1 or 2 arguments but has received 3.");
    let err = fail(no_root(), &call(nums(&[1, 2, 3]), "seq_contains", vec![num(1), num(2)]));
    assert_eq!(msg(&err), "?seq_contains(...) expects 1 argument but has received 2.");
}

#[test]
fn first_last_empty_return_null() {
    let err = fail(no_root(), &bi(lit(vec![]), "first"));
    assert!(is_null_error(&err), "{err:?}");
    let err = fail(no_root(), &bi(lit(vec![]), "last"));
    assert!(is_null_error(&err), "{err:?}");
}

#[test]
fn chunk_semantics() {
    assert_eq!(
        out(no_root(), &bi(call(nums(&[1, 2, 3, 4]), "chunk", vec![decimal(29, 1)]), "size")),
        "2"
    );
    let err = fail(no_root(), &bi(call(nums(&[1, 2, 3]), "chunk", vec![decimal(5, 1)]), "size"));
    assert_eq!(msg(&err), "The 1st argument to ?chunk (...) must be at least 1.");
    let err = fail(no_root(), &bi(call(nums(&[1, 2, 3]), "chunk", vec![st("x")]), "size"));
    assert_eq!(msg(&err), "?chunk(...) expects a number as argument #1, but received a string.");
    let err = fail(no_root(), &bi(call(nums(&[1, 2, 3]), "chunk", vec![id("noSuchVar")]), "size"));
    assert_eq!(msg(&err), "?chunk(...) expects a number as argument #1, but received a Null.");
    assert_eq!(
        out(no_root(), &bi(call(nums(&[1, 2]), "chunk", vec![num(1), id("noSuchVar")]), "size")),
        "2"
    );
    let filled = || call(nums(&[1, 2, 3]), "chunk", vec![num(2), st("-")]);
    assert_eq!(out(no_root(), &bi(paren(bi(filled(), "first")), "size")), "2");
    assert_eq!(out(no_root(), &bi(paren(bi(filled(), "last")), "size")), "2");
    let plain = call(nums(&[1, 2, 3]), "chunk", vec![num(2)]);
    assert_eq!(out(no_root(), &bi(paren(bi(plain, "last")), "size")), "1");
}

#[test]
fn sort_by_messages_match_java() {
    let one_a = || vec![("xs", list(vec![hash(vec![("a", n(1))])]))];
    let err = fail(one_a(), &call(id("xs"), "sort_by", vec![]));
    assert_eq!(msg(&err), "?sort_by(...) expects 1 argument but has received none.");
    let err = fail(one_a(), &call(id("xs"), "sort_by", vec![num(42)]));
    assert_eq!(
        msg(&err),
        "The argument to ?sort_by(key) must be a string (the name of the subvariable), or a sequence of strings (the \"path\" to the subvariable)."
    );
    let err = fail(one_a(), &call(id("xs"), "sort_by", vec![nums(&[1, 2])]));
    assert_eq!(
        msg(&err),
        "The argument to ?sort_by(key), when it's a sequence, must be a sequence of strings, but the item at index 0 is not a string."
    );
    let err = fail(one_a(), &call(id("xs"), "sort_by", vec![st("b")]));
    assert_eq!(
        msg(&err),
        "?sort_by(...) failed at sequence index 0: The \"b\" subvariable was null or missing."
    );
    let err = fail(no_root(), &call(nums(&[1, 2]), "sort_by", vec![st("a")]));
    assert_eq!(
        msg(&err),
        "?sort_by(...) failed at sequence index 0: Sequence items must be hashes when using ?sort_by.  subvariable is not a hash, so ?sort_by can't proceed with getting the \"a\" subvariable."
    );
    let err = fail(no_root(), &bi(lit(vec![num(1), st("a")]), "sort"));
    assert_eq!(
        msg(&err),
        "?sort failed at sequence index 1 (0-based): All values in the sequence must be numbers, because the first value was that. However, the value of the current item isn't a number but a string."
    );
    let mixed = vec![("xs", list(vec![hash(vec![("a", s("x"))]), hash(vec![("a", n(1))])]))];
    let err = fail(mixed, &call(id("xs"), "sort_by", vec![st("a")]));
    assert_eq!(
        msg(&err),
        "?sort_by(...) failed at sequence index 1 (0-based): All key values in the sequence must be strings, because the first key value was that. However, the key value of the current item isn't a string but a number."
    );
}

#[test]
fn sort_orders() {
    let words = lit(vec![st("whale"), st("Barbara"), st("zeppelin"), st("aardvark"), st("beetroot")]);
    let sorted = run(no_root(), &paren(bi(words, "sort"))).unwrap();
    assert_eq!(joined(&sorted, ","), "aardvark,Barbara,beetroot,whale,zeppelin");
    let cases = lit(vec![st("a"), st("A"), st("aa"), st("aA"), st("Aa"), st("AA")]);
    let sorted = run(no_root(), &paren(bi(cases, "sort"))).unwrap();
    assert_eq!(joined(&sorted, ","), "a,A,aa,aA,Aa,AA");
    let barbaras = lit(vec![st("Barbara"), st("barbara"), st("BARBARA")]);
    let sorted = run(no_root(), &paren(bi(barbaras, "sort"))).unwrap();
    assert_eq!(joined(&sorted, ","), "barbara,Barbara,BARBARA");
    let numbers = lit(vec![
        ex(ExprKind::Num(TNumber::Int(123))),
        num(543),
        num(-324),
        num(-34),
        decimal(11, 2),
        num(0),
        ex(ExprKind::Num(TNumber::Int(111))),
        decimal(1, 1),
        num(1),
        num(5),
    ]);
    let sorted = run(no_root(), &bi(numbers, "sort")).unwrap();
    assert_eq!(joined(&sorted, ","), "-324,-34,0,0.1,0.11,1,5,111,123,543");
    let bools = lit(vec![boolean(true), boolean(false), boolean(false), boolean(true)]);
    assert_eq!(out(no_root(), &bi(paren(bi(bools, "sort")), "first")), "false");
    let dates = vec![
        ("d1999", date(916790400000, DateType::Date)),
        ("d1998", date(887932800000, DateType::Date)),
    ];
    match run(dates, &bi(paren(bi(lit(vec![id("d1999"), id("d1998")]), "sort")), "first")).unwrap() {
        TModel::Date(d) => assert_eq!(d.millis, 887932800000),
        other => panic!("not a date: {other:?}"),
    }
    assert_eq!(out(no_root(), &bi(paren(bi(lit(vec![]), "sort")), "size")), "0");
}

#[test]
fn min_max_semantics() {
    assert_eq!(out(no_root(), &bi(nums(&[3, 1, 2]), "max")), "3");
    assert_eq!(out(no_root(), &bi(nums(&[3, 1, 2]), "min")), "1");
    let err = fail(no_root(), &bi(lit(vec![]), "max"));
    assert!(is_null_error(&err), "{err:?}");
    let err = fail(list_with_null(), &bi(id("listWithNull"), "max"));
    assert_eq!(msg(&err), "Can't use operator \"greater-than\" on string values.");
    let err = fail(no_root(), &bi(lit(vec![st("a"), st("b")]), "max"));
    assert_eq!(msg(&err), "Can't use operator \"greater-than\" on string values.");
    let err = fail(no_root(), &bi(lit(vec![st("a"), st("b")]), "min"));
    assert_eq!(msg(&err), "Can't use operator \"less-than\" on string values.");
    let err = fail(no_root(), &bi(lit(vec![num(1), st("a")]), "max"));
    assert!(msg(&err).contains("Can't compare values of these types"), "{err:?}");
    let dates = vec![
        ("d", date(698630400000, DateType::Date)),
        ("dt", date(698630400000, DateType::DateTime)),
    ];
    let err = fail(dates, &bi(lit(vec![id("d"), id("dt")]), "max"));
    assert!(msg(&err).contains("Left date type is DATETIME, right date type is DATE"), "{err:?}");
    let unbounded = TModel::Range(RangeSpec {
        start: 1,
        count: 0,
        ascending: true,
        unbounded: true,
        adaptive: false,
        affected_by_string_slicing_bug: false,
    });
    let err = fail(vec![("r", unbounded)], &bi(paren(id("r")), "max"));
    assert!(msg(&err).contains("right-unbounded"), "{err:?}");
}

#[test]
fn sequence_on_sequence() {
    assert_eq!(out(no_root(), &bi(bi(nums(&[1, 2, 3]), "sequence"), "size")), "3");
    assert_eq!(out(no_root(), &bi(paren(bi(nums(&[1, 2]), "sequence")), "first")), "1");
}

#[test]
fn sequence_on_string() {
    assert_eq!(out(no_root(), &bi(bi(st("abc"), "sequence"), "size")), "3");
    let chars = run(no_root(), &paren(bi(st("abc"), "sequence"))).unwrap();
    assert_eq!(joined(&chars, ","), "a,b,c");
    assert_eq!(out(no_root(), &bi(paren(bi(st("abc"), "sequence")), "first")), "a");
    assert_eq!(out(no_root(), &bi(paren(bi(st("abc"), "sequence")), "last")), "c");
}

#[test]
fn sequence_on_number_errors() {
    let err = fail(no_root(), &bi(num(42), "sequence"));
    assert!(msg(&err).contains("?sequence is not applicable to a number value"), "{err:?}");
}

#[test]
fn sequence_on_empty_string() {
    assert_eq!(out(no_root(), &bi(bi(st(""), "sequence"), "size")), "0");
}

#[test]
fn min_max_on_collection() {
    let coll = || vec![("coll", TModel::Collection(vec![n(3), n(1), n(2)]))];
    assert_eq!(out(coll(), &bi(id("coll"), "max")), "3");
    assert_eq!(out(coll(), &bi(id("coll"), "min")), "1");
}

#[test]
fn seq_contains_unknown_date_errors() {
    let u = vec![("u", date(698630400000, DateType::Unknown))];
    let err = fail(u, &call(lit(vec![id("u")]), "seq_contains", vec![id("u")]));
    assert!(
        msg(&err).contains("value of the comparison is a date-like value where it's not known"),
        "{err:?}"
    );
}

#[test]
fn sequence_on_collection() {
    let coll = || vec![("coll", TModel::Collection(vec![s("x"), s("y"), s("z")]))];
    assert_eq!(
        out(coll(), &call(bi(id("coll"), "sequence"), "seq_contains", vec![st("y")])),
        "true"
    );
    assert_eq!(
        out(coll(), &call(bi(id("coll"), "sequence"), "seq_contains", vec![st("w")])),
        "false"
    );
}

#[test]
fn seq_builtins_on_collection() {
    let coll = || vec![("coll", TModel::Collection(vec![s("a"), s("b"), s("c")]))];
    assert_eq!(out(coll(), &call(id("coll"), "seq_index_of", vec![st("b")])), "1");
    assert_eq!(out(coll(), &call(id("coll"), "seq_index_of", vec![st("a"), num(1)])), "-1");
    assert_eq!(out(coll(), &call(id("coll"), "seq_last_index_of", vec![st("a"), num(2)])), "0");
    assert_eq!(out(coll(), &call(id("coll"), "seq_contains", vec![st("a")])), "true");
    assert_eq!(out(coll(), &bi(id("coll"), "first")), "a");
}

#[test]
fn models_equal_missing_and_mixed_types() {
    let a = s("a");
    assert!(!models_equal(0, &TModel::Nothing, &a).unwrap());
    assert!(!models_equal(0, &a, &TModel::Nothing).unwrap());
    assert!(models_equal(0, &n(1), &TModel::Number(TNumber::Decimal { unscaled: 10, scale: 1 })).unwrap());
    assert!(models_equal(0, &s("x"), &s("x")).unwrap());
    assert!(models_equal(0, &TModel::Boolean(true), &TModel::Boolean(true)).unwrap());
    assert!(!models_equal(0, &n(1), &s("1")).unwrap());
    assert!(!models_equal(0, &list(vec![]), &s("a")).unwrap());
}

#[test]
fn models_equal_dates() {
    let d1 = date(698630400000, DateType::Date);
    let d2 = date(698630400000, DateType::Date);
    assert!(models_equal(0, &d1, &d2).unwrap());
    let dtm = date(698630400000, DateType::DateTime);
    let err = models_equal(3, &d1, &dtm).unwrap_err();
    assert_eq!(
        msg(&err),
        "This error has occurred when comparing sequence item at 0-based index 3 to the searched item:\nCan't compare dates of different types. Left date type is DATE, right date type is DATETIME."
    );
}
