use freemarker::ast::{Expr, ExprKind, Span};
use freemarker::error::TemplateError;
use freemarker::eval::Env;
use freemarker::loops::{loop_state_builtin, LoopCtx, PendingItems};
use freemarker::number::TNumber;
use freemarker::value::TModel;

fn ctx(index: usize, has_next: bool) -> LoopCtx {
    LoopCtx {
        var_name: "x".to_string(),
        var2_name: None,
        value: Some(TModel::Scalar("a".to_string())),
        key: None,
        index,
        has_next,
        pending: PendingItems::eager(Vec::new()),
        items_entered: false,
    }
}

fn env() -> Env {
    Env {
        vars: vec![
            ("a".to_string(), TModel::Scalar("odd".to_string())),
            ("b".to_string(), TModel::Scalar("even".to_string())),
            ("n".to_string(), TModel::Nothing),
        ],
        classic_compatible: false,
    }
}

fn id(x: &str) -> Expr {
    Expr::new(ExprKind::Ident(x.to_string()), Span { line: 1, col: 1 })
}

fn show(m: TModel) -> String {
    match m {
        TModel::Number(TNumber::Long(v)) => v.to_string(),
        TModel::Boolean(b) => b.to_string(),
        TModel::Scalar(s) => s,
        other => format!("{other:?}"),
    }
}

fn get(name: &str, c: &LoopCtx, args: &Vec<Expr>) -> String {
    show(loop_state_builtin(name, Some(c), &env(), args).unwrap().unwrap())
}

#[test]
fn loop_builtins() {
    let mut out = String::new();
    let none = Vec::new();
    for (k, has_next) in [(0usize, true), (1, true), (2, false)] {
        let c = ctx(k, has_next);
        out.push_str(&format!(
            "{}/{}/{}/{}/{};",
            get("index", &c, &none),
            get("counter", &c, &none),
            get("is_first", &c, &none),
            get("is_last", &c, &none),
            get("has_next", &c, &none)
        ));
    }
    assert_eq!(out, "0/1/true/false/true;1/2/false/false/true;2/3/false/true/false;");
}

#[test]
fn item_cycle_through_the_loop() {
    let args = vec![id("a"), id("b")];
    assert_eq!(get("item_cycle", &ctx(0, true), &args), "odd");
    assert_eq!(get("item_cycle", &ctx(1, true), &args), "even");
    assert_eq!(get("item_cycle", &ctx(2, false), &args), "odd");
    match loop_state_builtin("item_cycle", Some(&ctx(0, false)), &env(), &Vec::new()).unwrap_err() {
        TemplateError::Misc { message } => assert_eq!(message, "The ?itemCycle built-in requires at least one argument."),
        other => panic!("unexpected error: {other:?}"),
    }
    match loop_state_builtin("item_cycle", Some(&ctx(0, false)), &env(), &vec![id("n")]).unwrap_err() {
        TemplateError::InvalidReference { name } => assert_eq!(name, "n"),
        other => panic!("unexpected error: {other:?}"),
    }
    match loop_state_builtin("item_cycle", None, &env(), &args).unwrap_err() {
        TemplateError::Misc { message } => {
            assert_eq!(message, "The target of ?item_cycle is not a loop variable (no enclosing loop in scope)")
        },
        other => panic!("unexpected error: {other:?}"),
    }
    assert!(loop_state_builtin("size", None, &env(), &args).unwrap().is_none());
}
