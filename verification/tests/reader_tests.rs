use rlisp::reader::{parse_comment, parse_expr};
use rlisp::types::{Expr, MalError, MalMap, MalVal};

fn sym(s: &str) -> Expr {
    Expr::symbol(s.to_string())
}

fn read(s: &str) -> (String, Expr) {
    let (rest, e) = parse_expr(s).unwrap();
    (rest.to_string(), e)
}

#[test]
fn reads_a_symbol() {
    let (rest, e) = parse_expr("abc def").unwrap();
    assert_eq!(rest, " def");
    assert_eq!(e, Expr::Value(MalVal::Symbol("abc".to_string())));
}

#[test]
fn digits_read_as_numbers() {
    assert_eq!(read("42"), (String::new(), Expr::number(42)));
    assert_eq!(read("0"), (String::new(), Expr::number(0)));
    assert_eq!(read("007 x"), (" x".to_string(), Expr::number(7)));
    assert_eq!(read("12abc"), ("abc".to_string(), Expr::number(12)));
    assert_eq!(read("9223372036854775807"), (String::new(), Expr::number(i64::MAX)));
    assert_eq!(read("(+ 1 2)"), (String::new(), Expr::list(vec![sym("+"), Expr::number(1), Expr::number(2)])));
}

#[test]
fn signed_and_oversized_numerals_read_as_symbols() {
    assert_eq!(read("-7x"), (String::new(), sym("-7x")));
    assert_eq!(read("-5"), (String::new(), sym("-5")));
    assert_eq!(read("99999999999999999999"), (String::new(), sym("99999999999999999999")));
}

#[test]
fn separators_before_an_expression() {
    assert_eq!(read("   x"), (String::new(), sym("x")));
    assert_eq!(read(",,x"), (String::new(), sym("x")));
    assert_eq!(read(", x"), (String::new(), sym("x")));
    assert_eq!(read("\t\r\nx y"), (" y".to_string(), sym("x")));
}

#[test]
fn symbols_stop_at_special_characters_and_white_space() {
    assert_eq!(read("ab(c"), ("(c".to_string(), sym("ab")));
    assert_eq!(read("a;b"), (String::new(), sym("a;b")));
    assert_eq!(read("a\u{a0}b"), ("\u{a0}b".to_string(), sym("a")));
    assert!(parse_expr("\u{3000}b").is_err());
}

#[test]
fn keywords() {
    assert_eq!(read(":kw rest"), (" rest".to_string(), Expr::keyword("kw".to_string())));
    assert!(parse_expr(":").is_err());
    assert!(parse_expr(": x").is_err());
}

#[test]
fn strings_and_escapes() {
    assert_eq!(read("\"hi there\""), (String::new(), Expr::string("hi there".to_string())));
    assert_eq!(read("\"\""), (String::new(), Expr::string(String::new())));
    assert_eq!(read("\"a\\nb\\tc\""), (String::new(), Expr::string("a\nb\tc".to_string())));
    assert_eq!(read("\"a\\\\b\""), (String::new(), Expr::string("a\\\\b".to_string())));
    assert_eq!(read("\"a\\\"b\" x"), (" x".to_string(), Expr::string("a\\\"b".to_string())));
    assert!(parse_expr("\"abc").is_err());
    assert!(parse_expr("\"a\\qb\"").is_err());
    assert!(parse_expr("\"a\\").is_err());
}

#[test]
fn lists_and_vectors() {
    assert_eq!(read("(a b)"), (String::new(), Expr::list(vec![sym("a"), sym("b")])));
    assert_eq!(read("(a b )"), (String::new(), Expr::list(vec![sym("a"), sym("b")])));
    assert_eq!(read("( )"), (String::new(), Expr::list(vec![])));
    assert_eq!(read("(,)"), (String::new(), Expr::list(vec![])));
    assert_eq!(read("(a,b)"), (String::new(), Expr::list(vec![sym("a"), sym("b")])));
    assert_eq!(
        read("[x (y z)] tail"),
        (" tail".to_string(), Expr::vector(vec![sym("x"), Expr::list(vec![sym("y"), sym("z")])]))
    );
    assert!(parse_expr("(a b").is_err());
    assert!(parse_expr("(a b]").is_err());
}

#[test]
fn maps() {
    let mut m = MalMap::new();
    m.insert(MalVal::Number(1), Box::new(sym("a")));
    m.insert(MalVal::Symbol("b".to_string()), Box::new(Expr::string("c".to_string())));
    assert_eq!(read("{1 a b \"c\"}"), (String::new(), Expr::hash_map(m)));
    assert_eq!(read("{}"), (String::new(), Expr::hash_map(MalMap::new())));
    assert_eq!(read("{ }"), (String::new(), Expr::hash_map(MalMap::new())));
    assert_eq!(read("{,}"), (String::new(), Expr::hash_map(MalMap::new())));
    assert!(parse_expr("{ , }").is_err());
}

#[test]
fn maps_keep_the_last_binding() {
    let (_, e) = parse_expr("{a 1 a 2, b 3}").unwrap();
    assert_eq!(e.to_string(), "{a 2 b 3}");
}

#[test]
fn map_keys_too_large_for_a_number_are_symbols() {
    let (_, e) = parse_expr("{99999999999999999999 x}").unwrap();
    let mut m = MalMap::new();
    m.insert(MalVal::Symbol("99999999999999999999".to_string()), Box::new(sym("x")));
    assert_eq!(e, Expr::hash_map(m));
    let (_, e) = parse_expr("{9223372036854775807 x}").unwrap();
    let mut m = MalMap::new();
    m.insert(MalVal::Number(i64::MAX), Box::new(sym("x")));
    assert_eq!(e, Expr::hash_map(m));
}

#[test]
fn quoted_forms() {
    assert_eq!(read("'x"), (String::new(), Expr::quote(sym("x"))));
    assert_eq!(read("`x"), (String::new(), Expr::quasi(sym("x"))));
    assert_eq!(read("~x"), (String::new(), Expr::unquote(sym("x"))));
    assert_eq!(read("~@x"), (String::new(), Expr::splice_unquote(sym("x"))));
    assert_eq!(read("~@"), (String::new(), Expr::unquote(sym("@"))));
    assert_eq!(read("~@ )"), (" )".to_string(), Expr::unquote(sym("@"))));
    assert_eq!(read("'(a)"), (String::new(), Expr::quote(Expr::list(vec![sym("a")]))));
    assert!(parse_expr("'").is_err());
}

#[test]
fn nothing_to_read() {
    assert_eq!(parse_expr(""), Err(MalError::SyntaxError(String::new())));
    assert_eq!(parse_expr("  "), Err(MalError::SyntaxError("  ".to_string())));
    assert_eq!(parse_expr(")"), Err(MalError::SyntaxError(")".to_string())));
}

#[test]
fn comments() {
    assert_eq!(parse_comment("; note\nrest"), Ok("rest"));
    assert_eq!(parse_comment(";\n"), Ok(""));
    assert_eq!(parse_comment("; no end"), Err(MalError::SyntaxError("; no end".to_string())));
    assert_eq!(parse_comment("x"), Err(MalError::SyntaxError("x".to_string())));
}

#[test]
fn map_equality_ignores_the_order_of_keys() {
    let (_, a) = parse_expr("{a 1 b 2}").unwrap();
    let (_, b) = parse_expr("{b 2 a 1}").unwrap();
    assert_eq!(a, b);
    assert_ne!(a.to_string(), b.to_string());
    let (_, c) = parse_expr("{b 2 a 3}").unwrap();
    assert_ne!(a, c);
    let (_, d) = parse_expr("{a 1}").unwrap();
    assert_ne!(a, d);
    assert_ne!(d, a);
    let mut m = MalMap::new();
    m.insert(MalVal::Number(1), Box::new(sym("x")));
    m.insert(MalVal::Number(2), Box::new(sym("y")));
    let mut n = MalMap::new();
    n.insert(MalVal::Number(2), Box::new(sym("y")));
    n.insert(MalVal::Number(1), Box::new(sym("x")));
    assert!(m == n);
    assert_eq!(m.get(&MalVal::Number(2)), Some(&sym("y")));
    assert_eq!(m.get(&MalVal::Number(3)), None);
}

#[test]
fn equality_compares_structure() {
    assert_ne!(Expr::list(vec![sym("a")]), Expr::vector(vec![sym("a")]));
    assert_ne!(Expr::list(vec![sym("a")]), Expr::list(vec![sym("a"), sym("a")]));
    assert_ne!(Expr::quote(sym("a")), Expr::quasi(sym("a")));
    assert_eq!(Expr::quote(Expr::list(vec![sym("a")])), Expr::quote(Expr::list(vec![sym("a")])));
    assert_ne!(Expr::number(1), sym("1"));
}

#[test]
fn clones_are_equal() {
    let (_, e) = parse_expr("[(a 1) {k (v w)} 'q ~@r]").unwrap();
    let c = e.clone();
    assert_eq!(c, e);
    assert_eq!(c.to_string(), e.to_string());
    assert_eq!(e.copy(), e);
    let mut m = MalMap::new();
    m.insert(MalVal::Keyword("k".to_string()), Box::new(Expr::string("s".to_string())));
    assert_eq!(m.clone(), m);
}
