use rlisp::env::ReplEnv;
use rlisp::prims::{builtin_add, builtin_div, builtin_mul, builtin_sub};
use rlisp::reader::parse_expr;
use rlisp::types::{BuiltIn, Builtin, Expr, MalError, MalMap, MalVal};
use rlisp::{apply, apply_checked, eval, eval_as_fun, eval_as_val, eval_checked, print};

fn sym(s: &str) -> Expr {
    Expr::symbol(s.to_string())
}

fn n(x: i64) -> Expr {
    Expr::number(x)
}

#[test]
fn builtins_compute() {
    assert_eq!(builtin_add(n(2), n(3)), Ok(n(5)));
    assert_eq!(builtin_sub(n(2), n(3)), Ok(n(-1)));
    assert_eq!(builtin_mul(n(-4), n(3)), Ok(n(-12)));
    assert_eq!(builtin_div(n(7), n(2)), Ok(n(3)));
    assert_eq!(builtin_div(n(-7), n(2)), Ok(n(-3)));
    assert_eq!(builtin_div(n(7), n(-2)), Ok(n(-3)));
}

#[test]
fn builtins_check_the_left_operand_first() {
    assert_eq!(
        builtin_add(sym("a"), sym("b")),
        Err(MalError::Other("as_i64: panic: Got Symbol a".to_string()))
    );
    assert_eq!(
        builtin_mul(n(1), Expr::string("b".to_string())),
        Err(MalError::Other("as_i64: panic: Got String b".to_string()))
    );
}

#[test]
fn apply_folds_from_the_left() {
    let b = Builtin::Binary(BuiltIn::Sub);
    assert_eq!(apply(vec![n(10), n(3), n(2)], b), Ok(n(5)));
    let d = Builtin::Binary(BuiltIn::Div);
    assert_eq!(apply(vec![n(100), n(5), n(3)], d), Ok(n(6)));
}

#[test]
fn apply_to_one_argument_gives_it_back() {
    let b = Builtin::Binary(BuiltIn::Add);
    assert_eq!(apply(vec![Expr::string("s".to_string())], b), Ok(Expr::string("s".to_string())));
}

#[test]
fn apply_stops_at_the_first_error() {
    let b = Builtin::Binary(BuiltIn::Div);
    // the division by zero after the error is never performed
    assert_eq!(
        apply_checked(vec![n(1), sym("x"), n(0)], b),
        Some(Err(MalError::Other("as_i64: panic: Got Symbol x".to_string())))
    );
}

#[test]
fn apply_checked_reports_panics() {
    let add = Builtin::Binary(BuiltIn::Add);
    assert_eq!(apply_checked(vec![], add), None);
    assert_eq!(apply_checked(vec![n(i64::MAX), n(1)], add), None);
    assert_eq!(apply_checked(vec![n(1), n(0)], Builtin::Binary(BuiltIn::Div)), None);
    assert_eq!(apply_checked(vec![n(i64::MIN), n(-1)], Builtin::Binary(BuiltIn::Div)), None);
}

#[test]
fn eval_as_fun_cases() {
    let env = ReplEnv::new();
    assert_eq!(
        eval_as_fun(&env, Expr::builtin_symbol(BuiltIn::Mul)),
        Ok(Builtin::Binary(BuiltIn::Mul))
    );
    assert_eq!(eval_as_fun(&env, sym("-")), Ok(Builtin::Binary(BuiltIn::Sub)));
    assert_eq!(eval_as_fun(&env, sym("foo")), Err(MalError::UnknownIdent("foo".to_string())));
    assert_eq!(
        eval_as_fun(&env, n(3)),
        Err(MalError::NotAFun("got: 3. Not a function".to_string()))
    );
}

#[test]
fn eval_as_fun_looks_up_the_binding() {
    let mut env = ReplEnv::new();
    env.set(BuiltIn::Add.key(), MalVal::BSymbol(BuiltIn::Mul));
    assert_eq!(eval_as_fun(&env, sym("+")), Ok(Builtin::Binary(BuiltIn::Mul)));
    env.set(BuiltIn::Add.key(), MalVal::Number(4));
    assert_eq!(
        eval_as_fun(&env, sym("+")),
        Err(MalError::NotAFun("got: 4. Not a function".to_string()))
    );
}

#[test]
fn values_evaluate_to_themselves() {
    let env = ReplEnv::new();
    assert_eq!(eval(&env, n(4)), Ok(n(4)));
    assert_eq!(eval(&env, sym("q")), Ok(sym("q")));
}

#[test]
fn short_lists() {
    let env = ReplEnv::new();
    assert_eq!(eval(&env, Expr::list(vec![])), Ok(Expr::list(vec![])));
    assert_eq!(eval(&env, Expr::list(vec![n(8)])), Ok(n(8)));
    assert_eq!(eval(&env, Expr::list(vec![Expr::list(vec![])])), Ok(Expr::list(vec![])));
}

#[test]
fn arithmetic_applications() {
    let env = ReplEnv::new();
    let e = Expr::list(vec![sym("+"), n(1), n(2), n(3)]);
    assert_eq!(eval(&env, e), Ok(n(6)));
    let e = Expr::list(vec![
        sym("*"),
        Expr::list(vec![sym("-"), n(10), n(4)]),
        Expr::list(vec![Expr::builtin_symbol(BuiltIn::Div), n(9), n(3)]),
    ]);
    assert_eq!(eval(&env, e), Ok(n(18)));
}

#[test]
fn read_then_eval_numbers() {
    let env = ReplEnv::new();
    let (_, e) = parse_expr("(+ 1 2)").unwrap();
    assert_eq!(eval(&env, e), Ok(n(3)));
    let (_, e) = parse_expr("(* (- 10 4) (/ 9 3))").unwrap();
    assert_eq!(eval(&env, e), Ok(n(18)));
    let (_, e) = parse_expr("(+ 1 -2)").unwrap();
    assert_eq!(eval(&env, e), Err(MalError::Other("as_i64: panic: Got Symbol -2".to_string())));
}

#[test]
fn eval_errors() {
    let env = ReplEnv::new();
    assert_eq!(
        eval(&env, Expr::list(vec![sym("foo"), n(1)])),
        Err(MalError::UnknownIdent("foo".to_string()))
    );
    assert_eq!(
        eval(&env, Expr::list(vec![Expr::string("f".to_string()), n(1)])),
        Err(MalError::NotAFun("got: \"f\". Not a function".to_string()))
    );
    // the first failing argument decides the error
    assert_eq!(
        eval(&env, Expr::list(vec![sym("+"), Expr::list(vec![sym("a"), n(1)]), Expr::list(vec![sym("b"), n(1)])])),
        Err(MalError::UnknownIdent("a".to_string()))
    );
}

#[test]
fn eval_checked_reports_panics() {
    let env = ReplEnv::new();
    assert_eq!(eval_checked(&env, &Expr::quote(n(1))), None);
    assert_eq!(eval_checked(&env, &Expr::vector(vec![n(1)])), None);
    assert_eq!(eval_checked(&env, &Expr::hash_map(MalMap::new())), None);
    assert_eq!(eval_checked(&env, &Expr::list(vec![sym("+"), n(i64::MAX), n(1)])), None);
    assert_eq!(eval_checked(&env, &Expr::list(vec![sym("/"), n(1), n(0)])), None);
    // every argument is evaluated, so a later panic wins over an earlier error
    assert_eq!(
        eval_checked(&env, &Expr::list(vec![sym("+"), sym("x"), Expr::vector(vec![])])),
        None
    );
    assert_eq!(eval_checked(&env, &Expr::list(vec![sym("+"), n(2), n(2)])), Some(Ok(n(4))));
}

#[test]
fn eval_as_val_cases() {
    let env = ReplEnv::new();
    assert_eq!(eval_as_val(&env, Expr::list(vec![sym("+"), n(2), n(5)])), Ok(MalVal::Number(7)));
    assert_eq!(
        eval_as_val(&env, Expr::list(vec![])),
        Err(MalError::Other("got: (). Expected value".to_string()))
    );
    assert_eq!(
        eval_as_val(&env, Expr::list(vec![sym("nope"), n(1)])),
        Err(MalError::UnknownIdent("nope".to_string()))
    );
}

#[test]
fn print_uses_operator_text_for_builtins() {
    assert_eq!(print(&Expr::builtin_symbol(BuiltIn::Add)), "+");
    assert_eq!(print(&Expr::quote(Expr::builtin_symbol(BuiltIn::Div))), "(quote /)");
    assert_eq!(print(&Expr::quasi(Expr::unquote(sym("x")))), "(quasiquote (unquote x))");
    assert_eq!(print(&n(-5)), "-5");
    assert_eq!(print(&Expr::string("a".to_string())), "\"a\"");
    assert_eq!(print(&Expr::keyword("k".to_string())), ":k");
    assert_eq!(
        print(&Expr::list(vec![Expr::builtin_symbol(BuiltIn::Add), n(1)])),
        "(Add 1)"
    );
}
