use freemarker::ast::{Expr, ExprKind, Span};
use freemarker::error::TemplateError;
use freemarker::eval::Env;
use freemarker::macro_args::{
    apply_macro_defaults, bind_macro_args, build_args_special, macro_def_description, MacroDef, MacroParam, WithArgs,
    WithArgsKind,
};
use freemarker::number::TNumber;
use freemarker::value::TModel;

fn ex(kind: ExprKind) -> Expr {
    Expr::new(kind, Span { line: 1, col: 1 })
}

fn num(x: i64) -> Expr {
    ex(ExprKind::Num(TNumber::Long(x)))
}

fn st(x: &str) -> Expr {
    ex(ExprKind::Str(x.to_string()))
}

fn id(x: &str) -> Expr {
    ex(ExprKind::Ident(x.to_string()))
}

fn param(name: &str) -> MacroParam {
    MacroParam { name: name.to_string(), default: None, catch_all: false }
}

fn param_default(name: &str, d: Expr) -> MacroParam {
    MacroParam { name: name.to_string(), default: Some(d), catch_all: false }
}

fn rest(name: &str) -> MacroParam {
    MacroParam { name: name.to_string(), default: None, catch_all: true }
}

fn mac(name: &str, params: Vec<MacroParam>) -> MacroDef {
    MacroDef { name: name.to_string(), is_function: false, params }
}

fn func(name: &str, params: Vec<MacroParam>) -> MacroDef {
    MacroDef { name: name.to_string(), is_function: true, params }
}

fn pos(e: Expr) -> (String, Expr) {
    (String::new(), e)
}

fn named(n: &str, e: Expr) -> (String, Expr) {
    (n.to_string(), e)
}

fn env(classic: bool) -> Env {
    Env { vars: vec![("seven".to_string(), TModel::Number(TNumber::Long(7)))], classic_compatible: classic }
}

fn text(m: &TModel) -> String {
    match m {
        TModel::Nothing => "<null>".to_string(),
        TModel::Scalar(x) => x.clone(),
        TModel::Number(n) => n.to_plain_string(),
        TModel::Boolean(b) => b.to_string(),
        TModel::Sequence(items) => format!("[{}]", items.iter().map(text).collect::<Vec<_>>().join(",")),
        TModel::Hash(es) => format!(
            "{{{}}}",
            es.iter().map(|(k, v)| format!("{k}={}", text(v))).collect::<Vec<_>>().join(",")
        ),
        other => format!("{other:?}"),
    }
}

fn get<'a>(locals: &'a [(String, TModel)], name: &str) -> &'a TModel {
    &locals.iter().find(|(k, _)| k == name).unwrap_or_else(|| panic!("{name} is not bound")).1
}

fn msg(e: &TemplateError) -> String {
    match e {
        TemplateError::Misc { message } => message.clone(),
        TemplateError::InvalidReference { name } => format!("missing: {name}"),
        TemplateError::TypeMismatch { expected, actual } => format!("expected {expected}, got {actual}"),
    }
}

#[test]
fn macro_catch_all_and_positional() {
    let m = mac("m", vec![param("a"), rest("b")]);
    let locals = bind_macro_args(&env(false), &m, &vec![pos(num(1)), pos(num(2)), pos(num(3))], None).unwrap();
    assert_eq!(text(get(&locals, "a")), "1");
    assert_eq!(text(get(&locals, "b")), "[2,3]");
    let n = mac("n", vec![param_default("a", num(1)), rest("rest")]);
    let mut locals = bind_macro_args(&env(false), &n, &vec![named("x", num(9)), named("a", num(7))], None).unwrap();
    apply_macro_defaults(&env(false), &n, &mut locals).unwrap();
    assert_eq!(text(get(&locals, "a")), "7");
    assert_eq!(text(get(&locals, "rest")), "{x=9}");
}

#[test]
fn macro_missing_required_param_errors() {
    let m = mac("m", vec![param("a")]);
    let mut locals = bind_macro_args(&env(false), &m, &vec![], None).unwrap();
    let err = apply_macro_defaults(&env(false), &m, &mut locals).unwrap_err();
    assert!(msg(&err).contains("required parameter"), "{err:?}");
    assert!(msg(&err).starts_with(
        "When calling macro \"m\", required parameter \"a\" (parameter #1) was not specified."
    ));
}

#[test]
fn macro_default_value() {
    let greet = mac("greet", vec![param_default("name", st("world"))]);
    let mut locals = bind_macro_args(&env(false), &greet, &vec![], None).unwrap();
    apply_macro_defaults(&env(false), &greet, &mut locals).unwrap();
    assert_eq!(text(get(&locals, "name")), "world");
    let mut locals = bind_macro_args(&env(false), &greet, &vec![named("name", st("rust"))], None).unwrap();
    apply_macro_defaults(&env(false), &greet, &mut locals).unwrap();
    assert_eq!(text(get(&locals, "name")), "rust");
}

#[test]
fn defaults_may_refer_to_later_parameters() {
    let key = ex(ExprKind::DynKey { target: Box::new(id("c")), key: Box::new(id("a")) });
    let hash = TModel::Hash(vec![("3".to_string(), TModel::Scalar("4".to_string()))]);
    let m = mac("m", vec![param_default("b", key), param_default("a", st("3")), param_default("c", id("h"))]);
    let outer = Env { vars: vec![("h".to_string(), hash)], classic_compatible: false };
    let mut locals = bind_macro_args(&outer, &m, &vec![], None).unwrap();
    apply_macro_defaults(&outer, &m, &mut locals).unwrap();
    assert_eq!(text(get(&locals, "b")), "4");
}

#[test]
fn null_argument_of_required_parameter() {
    let m = mac("m", vec![param("a")]);
    let mut locals = bind_macro_args(&env(false), &m, &vec![pos(id("nope"))], None).unwrap();
    let err = apply_macro_defaults(&env(false), &m, &mut locals).unwrap_err();
    assert!(msg(&err).contains("was specified, but had null/missing value."), "{err:?}");
    let mut locals = bind_macro_args(&env(true), &m, &vec![pos(id("nope"))], None).unwrap();
    assert!(locals.is_empty());
    apply_macro_defaults(&env(true), &m, &mut locals).unwrap();
}

#[test]
fn binding_errors() {
    let m = mac("m", vec![param("a")]);
    let err = bind_macro_args(&env(false), &m, &vec![pos(num(1)), pos(num(2))], None).unwrap_err();
    assert_eq!(msg(&err), "Macro \"m\" only accepts 1 parameters, but got 2.");
    let err = bind_macro_args(&env(false), &m, &vec![named("b", num(1))], None).unwrap_err();
    assert_eq!(msg(&err), "Macro \"m\" has no parameter with name \"b\". Valid parameter names are: a");
    let f = func("f", vec![param("a"), rest("r")]);
    let err = bind_macro_args(&env(false), &f, &vec![pos(num(1)), pos(num(2)), named("x", num(3))], None)
        .unwrap_err();
    assert_eq!(
        msg(&err),
        "Function \"f\" call can't have both named and positional arguments that has to go into catch-all parameter."
    );
    let err = bind_macro_args(&env(false), &m, &vec![pos(id("nope")), pos(num(1))], None).unwrap_err();
    assert_eq!(msg(&err), "Macro \"m\" only accepts 1 parameters, but got 2.");
}

#[test]
fn arguments_bound_in_advance() {
    let m = mac("m", vec![param("a"), param("b"), rest("r")]);
    let by_pos = WithArgs { kind: WithArgsKind::ByPosition(vec![TModel::Scalar("p".to_string())]), order_last: false };
    let locals = bind_macro_args(&env(false), &m, &vec![pos(num(2))], Some(&by_pos)).unwrap();
    assert_eq!(text(get(&locals, "a")), "p");
    assert_eq!(text(get(&locals, "b")), "2");
    assert_eq!(text(get(&locals, "r")), "[]");
    let last = WithArgs { kind: WithArgsKind::ByPosition(vec![TModel::Scalar("p".to_string())]), order_last: true };
    let locals = bind_macro_args(&env(false), &m, &vec![pos(num(2))], Some(&last)).unwrap();
    assert_eq!(text(get(&locals, "a")), "2");
    assert_eq!(text(get(&locals, "b")), "p");
    let err = bind_macro_args(&env(false), &m, &vec![named("a", num(2))], Some(&last)).unwrap_err();
    assert_eq!(
        msg(&err),
        "Call can't pass parameters by name, as there's \"with args last\" in effect that specifies parameters by position."
    );
    let by_name = WithArgs {
        kind: WithArgsKind::ByName(vec![
            ("x".to_string(), TModel::Scalar("early".to_string())),
            ("a".to_string(), TModel::Scalar("pre".to_string())),
        ]),
        order_last: true,
    };
    let locals = bind_macro_args(&env(false), &m, &vec![named("x", num(1))], Some(&by_name)).unwrap();
    assert_eq!(text(get(&locals, "a")), "pre");
    assert_eq!(text(get(&locals, "r")), "{x=1}");
}

#[test]
fn args_special_variable() {
    let m = mac("m", vec![param("a"), rest("r")]);
    let locals = bind_macro_args(&env(false), &m, &vec![named("a", id("seven")), named("z", num(1))], None).unwrap();
    assert_eq!(text(&build_args_special(&locals, &m, false).unwrap()), "{a=7,z=1}");
    let locals = bind_macro_args(&env(false), &m, &vec![pos(num(1)), pos(num(2))], None).unwrap();
    let err = build_args_special(&locals, &m, false).unwrap_err();
    assert_eq!(
        msg(&err),
        "The macro can only by called with named arguments, because it uses both .args and a non-empty catch-all parameter."
    );
    let f = func("f", vec![param("a"), rest("r")]);
    let locals = bind_macro_args(&env(false), &f, &vec![pos(num(1)), pos(num(2)), pos(num(3))], None).unwrap();
    assert_eq!(text(&build_args_special(&locals, &f, true).unwrap()), "[1,2,3]");
}

#[test]
fn definitions_are_described() {
    let m = mac("m", vec![param("a"), param_default("b", num(1)), param_default("c", st("x")), rest("more")]);
    assert_eq!(macro_def_description(&m), "#macro m a b=1 c=\"x\" more");
    let f = MacroDef { name: "f".to_string(), is_function: true, params: vec![] };
    assert_eq!(macro_def_description(&f), "#function f");
    let odd = MacroDef {
        name: "g".to_string(),
        is_function: false,
        params: vec![MacroParam { name: "xs".to_string(), default: Some(id("d")), catch_all: true }],
    };
    assert_eq!(macro_def_description(&odd), "#macro g xs...");
}
