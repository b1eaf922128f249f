use freemarker::ast::{Expr, ExprKind, Span};
use freemarker::element::{describe_element, element_shown_in_stack_trace, AssignOp, CallTarget, Element};
use freemarker::macro_args::{MacroDef, MacroParam};
use freemarker::number::TNumber;

fn ex(kind: ExprKind) -> Expr {
    Expr::new(kind, Span { line: 1, col: 1 })
}

fn id(x: &str) -> Expr {
    ex(ExprKind::Ident(x.to_string()))
}

fn num(x: i64) -> Expr {
    ex(ExprKind::Num(TNumber::Long(x)))
}

fn d(el: Element, escaped: bool) -> Option<String> {
    describe_element(&el, escaped)
}

#[test]
fn directives_are_described() {
    assert_eq!(d(Element::If { cond: id("x") }, false).unwrap(), "#if x");
    assert_eq!(
        d(Element::List { seq: id("xs"), var: "x".to_string(), var2: None }, false).unwrap(),
        "#list xs as x"
    );
    assert_eq!(
        d(Element::List { seq: id("m"), var: "k".to_string(), var2: Some("v".to_string()) }, false).unwrap(),
        "#list m as k, v"
    );
    assert_eq!(d(Element::List { seq: id("xs"), var: String::new(), var2: None }, false).unwrap(), "#list xs");
    assert_eq!(d(Element::Items { var: "x".to_string(), var2: None }, false).unwrap(), "#items as x");
    assert_eq!(
        d(Element::Assign { target: "n".to_string(), op: AssignOp::PlusEq, expr: num(1) }, false).unwrap(),
        "#assign n += 1"
    );
    assert_eq!(d(Element::Global { target: "g".to_string(), expr: Some(num(2)) }, false).unwrap(), "#global g = 2");
    assert_eq!(d(Element::Local { target: "l".to_string(), expr: None }, false), None);
    assert_eq!(d(Element::Return { expr: None }, false).unwrap(), "#return");
    assert_eq!(d(Element::Stop { msg: Some(id("m")) }, false).unwrap(), "#stop m");
    assert_eq!(
        d(Element::Import { path: ex(ExprKind::Str("lib.ftl".to_string())), ns: "lib".to_string() }, false).unwrap(),
        "#import \"lib.ftl\" as lib"
    );
    assert_eq!(
        d(Element::Setting { key: "locale".to_string(), value: ex(ExprKind::Str("de".to_string())) }, false).unwrap(),
        "#setting locale=\"de\""
    );
    assert_eq!(d(Element::Static, false), None);
    assert_eq!(d(Element::Container, true), None);
    let def = MacroDef {
        name: "m".to_string(),
        is_function: false,
        params: vec![MacroParam { name: "a".to_string(), default: None, catch_all: false }],
    };
    assert_eq!(d(Element::Macro { def }, false).unwrap(), "#macro m a");
}

#[test]
fn interpolations_and_calls() {
    assert_eq!(d(Element::Interpolation { expr: id("x"), legacy: false }, false).unwrap(), "${x}");
    assert_eq!(d(Element::Interpolation { expr: id("x"), legacy: false }, true).unwrap(), "${x} auto-escaped");
    assert_eq!(d(Element::Interpolation { expr: id("x"), legacy: true }, true).unwrap(), "#{x}");
    let call = Element::Call {
        callee: CallTarget::Namespaced { ns: "lib".to_string(), name: "m".to_string() },
        args: vec![(String::new(), num(1)), ("b".to_string(), num(2))],
        body_params: vec!["x".to_string(), "y".to_string()],
    };
    assert!(element_shown_in_stack_trace(&call));
    assert_eq!(d(call, false).unwrap(), "@lib.m 1, b=2; x, y");
    assert_eq!(
        d(Element::Call { callee: CallTarget::Name("m".to_string()), args: vec![], body_params: vec![] }, false).unwrap(),
        "@m"
    );
    assert!(!element_shown_in_stack_trace(&Element::If { cond: id("x") }));
}

#[test]
fn long_descriptions_are_shortened() {
    let long = "a".repeat(50);
    let t = d(Element::If { cond: id(&long) }, false).unwrap();
    assert_eq!(t.chars().count(), 40);
    assert!(t.ends_with("..."));
    assert_eq!(t, format!("#if {}...", "a".repeat(33)));
}
