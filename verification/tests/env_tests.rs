use rlisp::env::{Env, ReplEnv};
use rlisp::types::{BuiltIn, MalVal};

#[test]
fn env_set_gives_back_previous_value() {
    let mut e = Env::new();
    assert_eq!(e.get(&5), None);
    assert_eq!(e.set(5, MalVal::Number(1)), None);
    assert_eq!(e.get(&5), Some(&MalVal::Number(1)));
    assert_eq!(e.set(5, MalVal::Number(2)), Some(MalVal::Number(1)));
    assert_eq!(e.get(&5), Some(&MalVal::Number(2)));
    assert_eq!(e.get(&6), None);
}

#[test]
fn fresh_repl_env_binds_the_builtins() {
    let env = ReplEnv::new();
    for b in [BuiltIn::Add, BuiltIn::Sub, BuiltIn::Mul, BuiltIn::Div] {
        assert_eq!(env.get(&b.key()), Some(MalVal::BSymbol(b)));
    }
}

#[test]
fn builtins_stay_bound_after_other_keys_are_set() {
    let mut env = ReplEnv::new();
    env.set(4, MalVal::Number(4));
    env.set(2, MalVal::Number(7));
    assert_eq!(env.get(&0), Some(MalVal::BSymbol(BuiltIn::Add)));
    assert_eq!(env.get(&2), Some(MalVal::Number(7)));
    assert_eq!(env.get(&3), Some(MalVal::BSymbol(BuiltIn::Div)));
    assert_eq!(env.get(&4), Some(MalVal::Number(4)));
}

#[test]
fn repl_env_set_then_get() {
    let mut env = ReplEnv::new();
    assert_eq!(env.set(9, MalVal::Keyword("k".to_string())), None);
    assert_eq!(env.get(&9), Some(MalVal::Keyword("k".to_string())));
    assert_eq!(env.set(0, MalVal::Number(1)), Some(MalVal::BSymbol(BuiltIn::Add)));
    assert_eq!(env.get(&0), Some(MalVal::Number(1)));
    assert_eq!(env.get(&1), Some(MalVal::BSymbol(BuiltIn::Sub)));
}
