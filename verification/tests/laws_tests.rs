use rlisp::env::ReplEnv;
use rlisp::reader::parse_expr;
use rlisp::types::{BuiltIn, Builtin, Expr, MalVal};
use rlisp::{apply, eval, print};

#[test]
fn printed_symbols_read_back() {
    for s in ["abc", "+", "x-y?", "-1", "a;b"] {
        let e = Expr::symbol(s.to_string());
        let text = print(&e);
        assert_eq!(text, s);
        let (rest, back) = parse_expr(&text).unwrap();
        assert_eq!(rest, "");
        assert_eq!(back, e);
    }
}

#[test]
fn printed_keywords_read_back() {
    let e = Expr::keyword("key".to_string());
    let text = print(&e);
    assert_eq!(text, ":key");
    assert_eq!(parse_expr(&text).unwrap(), ("", e));
}

#[test]
fn addition_sums_its_arguments() {
    let xs = [5i64, -12, 40, 7];
    let args: Vec<Expr> = xs.iter().map(|x| Expr::number(*x)).collect();
    assert_eq!(apply(args, Builtin::Binary(BuiltIn::Add)), Ok(Expr::number(40)));
}

#[test]
fn evaluation_gives_values() {
    let env = ReplEnv::new();
    let e = Expr::list(vec![
        Expr::list(vec![Expr::symbol("+".to_string()), Expr::string("s".to_string())]),
    ]);
    assert_eq!(eval(&env, e), Ok(Expr::string("s".to_string())));
}

#[test]
fn reading_consumes_and_stays_within_the_input() {
    for s in ["x", "(a b) c", "  [q]", "\"str\"rest", "{k v}"] {
        let (rest, _) = parse_expr(s).unwrap();
        assert!(rest.len() < s.len());
        assert!(s.ends_with(rest));
    }
}

#[test]
fn lookup_after_set() {
    let mut env = ReplEnv::new();
    env.set(7, MalVal::Number(3));
    assert_eq!(env.get(&7), Some(MalVal::Number(3)));
    assert_eq!(env.get(&2), Some(MalVal::BSymbol(BuiltIn::Mul)));
}

#[test]
fn printed_plain_strings_read_back() {
    for s in ["", "hello world", "a(b)c", "x;y"] {
        let e = Expr::string(s.to_string());
        let text = print(&e);
        assert_eq!(text, format!("\"{}\"", s));
        assert_eq!(parse_expr(&text).unwrap(), ("", e));
    }
}

#[test]
fn printed_symbol_lists_read_back() {
    for names in [vec![], vec!["a"], vec!["+", "x", "y-z"]] {
        let e = Expr::list(names.iter().map(|n| Expr::symbol(n.to_string())).collect());
        let text = print(&e);
        assert_eq!(text, format!("({})", names.join(" ")));
        assert_eq!(parse_expr(&text).unwrap(), ("", e));
    }
}

#[test]
fn printed_numbers_read_back() {
    for x in [0i64, 7, 42, 1000, i64::MAX] {
        let e = Expr::number(x);
        let text = print(&e);
        assert_eq!(text, x.to_string());
        assert_eq!(parse_expr(&text).unwrap(), ("", e));
    }
}

#[test]
fn printed_atom_lists_read_back() {
    let e = Expr::list(vec![
        Expr::symbol("+".to_string()),
        Expr::number(1),
        Expr::number(20),
        Expr::symbol("x".to_string()),
    ]);
    let text = print(&e);
    assert_eq!(text, "(+ 1 20 x)");
    assert_eq!(parse_expr(&text).unwrap(), ("", e));
}
