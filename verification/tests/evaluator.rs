use freemarker::ast::{Expr, ExprKind, Span};
use freemarker::error::TemplateError;
use freemarker::eval::{eval, interpolated, length, Env};
use freemarker::number::TNumber;
use freemarker::output_format::OutputFormatKind;
use freemarker::value::{DateType, DateValue, TModel};

fn ex(kind: ExprKind) -> Expr {
    Expr::new(kind, Span { line: 1, col: 1 })
}

fn id(name: &str) -> Expr {
    ex(ExprKind::Ident(name.to_string()))
}

fn st(x: &str) -> Expr {
    ex(ExprKind::Str(x.to_string()))
}

fn num(x: i64) -> Expr {
    ex(ExprKind::Num(TNumber::Long(x)))
}

fn boolean(b: bool) -> Expr {
    ex(ExprKind::Bool(b))
}

fn nums(xs: &[i64]) -> Expr {
    ex(ExprKind::ListLit(xs.iter().map(|x| num(*x)).collect()))
}

fn b(e: Expr) -> Box<Expr> {
    Box::new(e)
}

fn bi(target: Expr, name: &str) -> Expr {
    ex(ExprKind::BuiltIn { target: b(target), name: name.to_string(), args: None })
}

fn call(target: Expr, name: &str, args: Vec<Expr>) -> Expr {
    ex(ExprKind::BuiltIn { target: b(target), name: name.to_string(), args: Some(args) })
}

fn env_of(vars: Vec<(&str, TModel)>, classic: bool) -> Env {
    Env {
        vars: vars.into_iter().map(|(k, v)| (k.to_string(), v)).collect(),
        classic_compatible: classic,
    }
}

fn root() -> Vec<(&'static str, TModel)> {
    vec![
        ("user", TModel::Hash(vec![("name".to_string(), TModel::Scalar("Joe".to_string()))])),
        ("xs", TModel::Sequence(vec![TModel::Scalar("a".to_string()), TModel::Scalar("b".to_string())])),
        ("t", TModel::Boolean(true)),
        ("f", TModel::Boolean(false)),
        ("word", TModel::Scalar("abc".to_string())),
    ]
}

fn run(e: &Expr) -> Result<TModel, TemplateError> {
    eval(&env_of(root(), false), e)
}

fn run_classic(e: &Expr) -> Result<TModel, TemplateError> {
    eval(&env_of(root(), true), e)
}

fn text(m: &TModel) -> String {
    match m {
        TModel::Scalar(x) => x.clone(),
        TModel::Number(d) => d.to_plain_string(),
        TModel::Boolean(b) => b.to_string(),
        TModel::Nothing => "<null>".to_string(),
        other => format!("{other:?}"),
    }
}

fn value(e: &Expr) -> String {
    text(&run(e).unwrap())
}

fn msg(e: &TemplateError) -> String {
    match e {
        TemplateError::Misc { message } => message.clone(),
        TemplateError::InvalidReference { name } => format!("missing: {name}"),
        TemplateError::TypeMismatch { expected, actual } => format!("expected {expected}, got {actual}"),
    }
}

fn error(e: &Expr) -> String {
    msg(&run(e).unwrap_err())
}

#[test]
fn literals_and_variables() {
    assert_eq!(value(&st("x")), "x");
    assert_eq!(value(&num(7)), "7");
    assert_eq!(value(&boolean(false)), "false");
    assert_eq!(value(&id("word")), "abc");
    assert_eq!(error(&id("nope")), "missing: nope");
    assert!(matches!(run_classic(&id("nope")).unwrap(), TModel::Nothing));
}

#[test]
fn the_first_binding_of_a_name_wins() {
    let env = env_of(vec![("v", TModel::Scalar("inner".to_string())), ("v", TModel::Scalar("outer".to_string()))], false);
    assert_eq!(text(&eval(&env, &id("v")).unwrap()), "inner");
}

#[test]
fn logic_short_circuits() {
    let and = |a: Expr, c: Expr| ex(ExprKind::And(b(a), b(c)));
    let or = |a: Expr, c: Expr| ex(ExprKind::Or(b(a), b(c)));
    assert_eq!(value(&and(id("t"), id("f"))), "false");
    assert_eq!(value(&and(id("f"), id("nope"))), "false");
    assert_eq!(error(&and(id("t"), id("nope"))), "missing: nope");
    assert_eq!(value(&or(id("t"), id("nope"))), "true");
    assert_eq!(value(&or(id("f"), id("t"))), "true");
    assert_eq!(value(&ex(ExprKind::Not(b(id("f"))))), "true");
    assert_eq!(error(&ex(ExprKind::Not(b(id("word"))))), "expected boolean, got string");
}

#[test]
fn classic_mode_conditions() {
    let not = |a: Expr| ex(ExprKind::Not(b(a)));
    assert_eq!(text(&run_classic(&not(id("nope"))).unwrap()), "true");
    assert_eq!(text(&run_classic(&not(id("word"))).unwrap()), "false");
    assert_eq!(text(&run_classic(&not(st(""))).unwrap()), "true");
    assert_eq!(text(&run_classic(&not(id("xs"))).unwrap()), "false");
}

#[test]
fn comparisons() {
    let lt = ex(ExprKind::Lt(b(num(1)), b(num(2))));
    assert_eq!(value(&lt), "true");
    let eq = ex(ExprKind::Eq(b(st("abc")), b(id("word"))));
    assert_eq!(value(&eq), "true");
    let ne = ex(ExprKind::NotEq(b(num(1)), b(num(1))));
    assert_eq!(value(&ne), "false");
    let bad = ex(ExprKind::Lt(b(st("a")), b(st("b"))));
    assert_eq!(error(&bad), "Can't use operator \"<\" on string values.");
    let compat = ex(ExprKind::Eq(b(st("\u{212B}")), b(st("\u{00C5}"))));
    assert_eq!(value(&compat), "true");
}

#[test]
fn dots_and_keys() {
    let dot = ex(ExprKind::Dot { target: b(id("user")), name: "name".to_string() });
    assert_eq!(value(&dot), "Joe");
    let none = ex(ExprKind::Dot { target: b(id("user")), name: "age".to_string() });
    assert_eq!(value(&none), "<null>");
    let missing = ex(ExprKind::Dot { target: b(id("nope")), name: "x".to_string() });
    assert_eq!(error(&missing), "missing: nope");
    let not_hash = ex(ExprKind::Dot { target: b(id("word")), name: "x".to_string() });
    assert_eq!(error(&not_hash), "expected hash, got string");
    let key = ex(ExprKind::DynKey { target: b(id("user")), key: b(st("name")) });
    assert_eq!(value(&key), "Joe");
    let item = ex(ExprKind::DynKey { target: b(id("xs")), key: b(num(1)) });
    assert_eq!(value(&item), "b");
    let past = ex(ExprKind::DynKey { target: b(id("xs")), key: b(num(5)) });
    assert_eq!(value(&past), "<null>");
    let neg = ex(ExprKind::DynKey { target: b(id("xs")), key: b(num(-1)) });
    assert_eq!(error(&neg), "missing: xs[-1]");
    let ch = ex(ExprKind::DynKey { target: b(id("word")), key: b(num(2)) });
    assert_eq!(value(&ch), "c");
    let far = ex(ExprKind::DynKey { target: b(id("word")), key: b(num(3)) });
    assert_eq!(
        error(&far),
        "String index out of range: The index was 3 (0-based), but the length of the string is only 3."
    );
}

#[test]
fn defaults_and_existence() {
    let d = |t: Expr, dflt: Option<Expr>| ex(ExprKind::Default { target: b(t), default: dflt.map(b) });
    assert_eq!(value(&d(id("nope"), Some(st("x")))), "x");
    assert_eq!(value(&d(id("nope"), None)), "");
    assert_eq!(value(&d(id("word"), Some(st("x")))), "abc");
    let exists = |t: Expr| ex(ExprKind::Exists(b(t)));
    assert_eq!(value(&exists(id("nope"))), "false");
    assert_eq!(value(&exists(id("word"))), "true");
    assert_eq!(value(&bi(id("nope"), "exists")), "false");
    assert_eq!(value(&call(id("nope"), "default", vec![id("alsoNope"), st("y")])), "y");
    let deep = ex(ExprKind::Dot { target: b(id("nope")), name: "x".to_string() });
    assert_eq!(error(&d(deep, Some(st("x")))), "missing: nope");
}

#[test]
fn type_tests() {
    assert_eq!(value(&bi(id("word"), "is_string")), "true");
    assert_eq!(value(&bi(id("word"), "is_number")), "false");
    assert_eq!(value(&bi(num(1), "is_number")), "true");
    assert_eq!(value(&bi(id("t"), "is_boolean")), "true");
    assert_eq!(value(&bi(id("user"), "is_hash")), "true");
    assert_eq!(value(&bi(id("nope"), "is_string")), "false");
}

#[test]
fn lengths_and_sizes() {
    assert_eq!(value(&bi(st("\u{10000}a"), "length")), "3");
    assert_eq!(value(&bi(id("xs"), "length")), "2");
    assert_eq!(value(&bi(id("user"), "size")), "1");
    assert_eq!(value(&bi(bi(nums(&[1, 2, 3]), "reverse"), "first")), "3");
    match length(&TModel::Scalar("ab".to_string())).unwrap() {
        TModel::Number(TNumber::Long(v)) => assert_eq!(v, 2),
        other => panic!("not a length: {other:?}"),
    }
    assert_eq!(
        msg(&length(&TModel::Boolean(true)).unwrap_err()),
        "?length is not applicable to a boolean value"
    );
}

#[test]
fn arguments_are_counted() {
    assert_eq!(
        error(&call(nums(&[1]), "sort", vec![num(1)])),
        "?sort(...) expects no argument but has received 1."
    );
}

#[test]
fn interpolation_of_null() {
    let env = env_of(root(), false);
    let e = ex(ExprKind::Dot { target: b(id("user")), name: "age".to_string() });
    assert_eq!(msg(&interpolated(&env, &e).unwrap_err()), "missing: user.age");
    let classic = env_of(root(), true);
    assert!(matches!(interpolated(&classic, &e).unwrap(), None));
    assert_eq!(text(&interpolated(&env, &id("word")).unwrap().unwrap()), "abc");
}

fn lambda(param: &str, body: Expr) -> Expr {
    ex(ExprKind::Lambda { params: vec![param.to_string()], body: b(body) })
}

fn items(m: &TModel) -> Vec<String> {
    match m {
        TModel::Sequence(xs) => xs.iter().map(text).collect(),
        other => panic!("not a sequence: {other:?}"),
    }
}

#[test]
fn lambda_built_ins() {
    let gt = |x: i64| lambda("x", ex(ExprKind::Gt(b(id("x")), b(num(x)))));
    let lt = |x: i64| lambda("x", ex(ExprKind::Lt(b(id("x")), b(num(x)))));
    let list = || nums(&[1, 5, 2, 7]);
    assert_eq!(items(&run(&call(list(), "filter", vec![gt(1)])).unwrap()), vec!["5", "2", "7"]);
    assert_eq!(items(&run(&call(list(), "take_while", vec![lt(6)])).unwrap()), vec!["1", "5", "2"]);
    assert_eq!(items(&run(&call(list(), "drop_while", vec![lt(6)])).unwrap()), vec!["7"]);
    assert_eq!(items(&run(&call(list(), "drop_while", vec![lt(2)])).unwrap()), vec!["5", "2", "7"]);
    let upper = lambda("s", bi(id("s"), "is_string"));
    assert_eq!(items(&run(&call(id("xs"), "map", vec![upper])).unwrap()), vec!["true", "true"]);
    // The lambda's parameter hides a variable of the same name.
    let shadow = lambda("word", ex(ExprKind::Eq(b(id("word")), b(st("b")))));
    assert_eq!(items(&run(&call(id("xs"), "filter", vec![shadow])).unwrap()), vec!["b"]);
    assert_eq!(
        error(&call(list(), "filter", vec![num(1)])),
        "The argument to ?filter must be a lambda expression"
    );
    assert_eq!(
        error(&call(list(), "filter", vec![lambda("x", id("x"))])),
        "The filter expression had to return a boolean value"
    );
    let null = ex(ExprKind::Dot { target: b(id("user")), name: "age".to_string() });
    assert_eq!(
        error(&call(list(), "map", vec![lambda("x", null)])),
        "The element mapper function has returned no return value (has returned null)."
    );
    assert_eq!(items(&run(&call(nums(&[]), "map", vec![lambda("x", id("nope"))])).unwrap()), Vec::<String>::new());
}

#[test]
fn take_while_then_drop_while_gives_back_the_list() {
    let pred = || lambda("x", ex(ExprKind::Lt(b(id("x")), b(num(3)))));
    let list = || nums(&[1, 2, 3, 1, 5]);
    let mut all = items(&run(&call(list(), "take_while", vec![pred()])).unwrap());
    all.extend(items(&run(&call(list(), "drop_while", vec![pred()])).unwrap()));
    assert_eq!(all, items(&run(&list()).unwrap()));
    assert_eq!(all, vec!["1", "2", "3", "1", "5"]);
}

#[test]
fn map_keeps_length_and_filter_shortens() {
    let list = || nums(&[4, 8, 15, 16, 23, 42]);
    let twice = lambda("x", ex(ExprKind::Eq(b(id("x")), b(id("x")))));
    let mapped = items(&run(&call(list(), "map", vec![twice])).unwrap());
    assert_eq!(mapped.len(), 6);
    let odd = lambda("x", ex(ExprKind::Gt(b(id("x")), b(num(15)))));
    let kept = items(&run(&call(list(), "filter", vec![odd])).unwrap());
    assert_eq!(kept, vec!["16", "23", "42"]);
}

#[test]
fn date_kinds_and_markup_text() {
    let unknown = TModel::Date(DateValue { millis: 86_400_000, kind: DateType::Unknown });
    let known = TModel::Date(DateValue { millis: 5, kind: DateType::Time });
    let markup = TModel::Markup { format: OutputFormatKind::Html, markup: "&lt;b&gt;".to_string(), plain: None };
    let env = env_of(vec![("u", unknown), ("k", known), ("m", markup), ("s", TModel::Scalar("x".to_string()))], false);
    match eval(&env, &bi(id("u"), "date_if_unknown")).unwrap() {
        TModel::Date(d) => {
            assert_eq!(d.kind, DateType::Date);
            assert_eq!(d.millis, 86_400_000);
        },
        other => panic!("not a date: {other:?}"),
    }
    match eval(&env, &bi(id("u"), "datetime_if_unknown")).unwrap() {
        TModel::Date(d) => assert_eq!(d.kind, DateType::DateTime),
        other => panic!("not a date: {other:?}"),
    }
    match eval(&env, &bi(id("k"), "date_if_unknown")).unwrap() {
        TModel::Date(d) => assert_eq!(d.kind, DateType::Time),
        other => panic!("not a date: {other:?}"),
    }
    assert_eq!(msg(&eval(&env, &bi(id("s"), "time_if_unknown")).unwrap_err()), "expected date, got string");
    assert_eq!(text(&eval(&env, &bi(id("m"), "markup_string")).unwrap()), "&lt;b&gt;");
    assert_eq!(
        msg(&eval(&env, &bi(id("s"), "markup_string")).unwrap_err()),
        "expected markup output, got string"
    );
}
