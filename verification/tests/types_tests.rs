use rlisp::types::{BuiltIn, Expr, MalError, MalMap, MalVal};

fn sym(s: &str) -> Expr {
    Expr::symbol(s.to_string())
}

#[test]
fn error_constructors_carry_their_message() {
    assert_eq!(MalError::unknown_ident::<()>("x"), Err(MalError::UnknownIdent("x".to_string())));
    assert_eq!(MalError::syntax_error::<()>("x"), Err(MalError::SyntaxError("x".to_string())));
    assert_eq!(MalError::other_error::<()>("x"), Err(MalError::Other("x".to_string())));
    assert_eq!(MalError::not_afun_error::<()>("x"), Err(MalError::NotAFun("x".to_string())));
    assert_eq!(MalError::type_error::<()>("x"), Err(MalError::TypeError("x".to_string())));
}

#[test]
fn from_a_borrowed_error_copies_it() {
    let e = MalError::TypeError("bad".to_string());
    let copied: MalError = MalError::from(&e);
    assert_eq!(copied, e);
}

#[test]
fn value_constructors() {
    assert_eq!(MalVal::number(3), MalVal::Number(3));
    assert_eq!(MalVal::symbol("a".to_string()), MalVal::Symbol("a".to_string()));
    assert_eq!(MalVal::builtin_symbol(BuiltIn::Mul), MalVal::BSymbol(BuiltIn::Mul));
    assert_eq!(MalVal::string("a".to_string()), MalVal::String("a".to_string()));
    assert_eq!(MalVal::keyword("a".to_string()), MalVal::Keyword("a".to_string()));
}

#[test]
fn val_as_i64_of_each_kind() {
    assert_eq!(MalVal::Number(-4).as_i64(), Ok(-4));
    assert_eq!(
        MalVal::Symbol("x".to_string()).as_i64(),
        Err(MalError::Other("as_i64: panic: Got Symbol x".to_string()))
    );
    assert_eq!(
        MalVal::BSymbol(BuiltIn::Add).as_i64(),
        Err(MalError::Other("as_i64: panic: Got BSymbol Add".to_string()))
    );
    assert_eq!(
        MalVal::String("s".to_string()).as_i64(),
        Err(MalError::Other("as_i64: panic: Got String s".to_string()))
    );
    assert_eq!(
        MalVal::Keyword("k".to_string()).as_i64(),
        Err(MalError::Other("as_i64: panic: Got Keyword k".to_string()))
    );
}

#[test]
fn val_as_string_of_each_kind() {
    assert_eq!(MalVal::Symbol("x".to_string()).as_string(), "x");
    assert_eq!(MalVal::BSymbol(BuiltIn::Div).as_string(), "Div");
    assert_eq!(MalVal::String("s".to_string()).as_string(), "s");
    assert_eq!(MalVal::Keyword("k".to_string()).as_string(), "k");
    assert_eq!(MalVal::Number(-120).as_string(), "-120");
}

#[test]
fn val_display() {
    assert_eq!(MalVal::Number(0).to_string(), "0");
    assert_eq!(MalVal::Number(i64::MIN).to_string(), "-9223372036854775808");
    assert_eq!(MalVal::Number(i64::MAX).to_string(), "9223372036854775807");
    assert_eq!(MalVal::Symbol("x".to_string()).to_string(), "x");
    assert_eq!(MalVal::BSymbol(BuiltIn::Sub).to_string(), "Sub");
    assert_eq!(MalVal::String("s t".to_string()).to_string(), "\"s t\"");
    assert_eq!(MalVal::Keyword("k".to_string()).to_string(), ":k");
}

#[test]
fn builtin_texts_and_keys() {
    assert_eq!(BuiltIn::Add.to_string(), "+");
    assert_eq!(BuiltIn::Sub.to_string(), "-");
    assert_eq!(BuiltIn::Mul.to_string(), "*");
    assert_eq!(BuiltIn::Div.to_string(), "/");
    assert_eq!(BuiltIn::Mul.name(), "Mul");
    assert_eq!(BuiltIn::Add.key(), 0);
    assert_eq!(BuiltIn::Sub.key(), 1);
    assert_eq!(BuiltIn::Mul.key(), 2);
    assert_eq!(BuiltIn::Div.key(), 3);
    assert_eq!(BuiltIn::named("*"), Some(BuiltIn::Mul));
    assert_eq!(BuiltIn::named("/"), Some(BuiltIn::Div));
    assert_eq!(BuiltIn::named("++"), None);
    assert_eq!(BuiltIn::named(""), None);
}

#[test]
fn expr_display_of_collections() {
    let l = Expr::list(vec![sym("a"), Expr::number(1), Expr::string("s".to_string())]);
    assert_eq!(l.to_string(), "(a 1 \"s\")");
    let v = Expr::vector(vec![Expr::keyword("k".to_string()), Expr::list(vec![])]);
    assert_eq!(v.to_string(), "[:k ()]");
    let mut m = MalMap::new();
    m.insert(MalVal::Number(1), Box::new(sym("one")));
    m.insert(MalVal::Keyword("two".to_string()), Box::new(Expr::number(2)));
    assert_eq!(Expr::hash_map(m).to_string(), "{1 one :two 2}");
    assert_eq!(Expr::hash_map(MalMap::new()).to_string(), "{}");
}

#[test]
fn expr_display_of_quoted_forms() {
    assert_eq!(Expr::quote(sym("x")).to_string(), "(quote x)");
    assert_eq!(Expr::quasi(sym("x")).to_string(), "(quasiquote x)");
    assert_eq!(Expr::unquote(sym("x")).to_string(), "(unquote x)");
    assert_eq!(Expr::splice_unquote(sym("x")).to_string(), "(splice-unquote x)");
    assert_eq!(Expr::quote(Expr::builtin_symbol(BuiltIn::Add)).to_string(), "(quote Add)");
}

#[test]
fn expr_as_i64() {
    assert_eq!(Expr::number(7).as_i64(), Ok(7));
    assert_eq!(
        sym("y").as_i64(),
        Err(MalError::Other("as_i64: panic: Got Symbol y".to_string()))
    );
    assert_eq!(
        Expr::list(vec![Expr::number(1), Expr::number(2)]).as_i64(),
        Err(MalError::TypeError("Wanted: i64, Got: (1 2)".to_string()))
    );
}

#[test]
fn map_insert_replaces_and_keeps_order() {
    let mut m = MalMap::new();
    m.insert(MalVal::Symbol("a".to_string()), Box::new(Expr::number(1)));
    m.insert(MalVal::Symbol("b".to_string()), Box::new(Expr::number(2)));
    m.insert(MalVal::Symbol("a".to_string()), Box::new(Expr::number(3)));
    assert_eq!(m.len(), 2);
    let (k0, v0) = m.entry(0);
    assert_eq!(k0, &MalVal::Symbol("a".to_string()));
    assert_eq!(v0, &Expr::number(3));
    let (k1, v1) = m.entry(1);
    assert_eq!(k1, &MalVal::Symbol("b".to_string()));
    assert_eq!(v1, &Expr::number(2));
}

#[test]
fn map_keys_of_different_kinds_differ() {
    let mut m = MalMap::new();
    m.insert(MalVal::Number(1), Box::new(Expr::number(1)));
    m.insert(MalVal::Symbol("1".to_string()), Box::new(Expr::number(2)));
    m.insert(MalVal::String("1".to_string()), Box::new(Expr::number(3)));
    assert_eq!(m.len(), 3);
}
