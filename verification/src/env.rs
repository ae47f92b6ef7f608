//! Environments: the bindings that the evaluator looks names up in.

use std::collections::HashMap;

use vstd::prelude::*;

use crate::types::{builtin_key, BuiltIn, MalVal, ValView};

verus! {

broadcast use vstd::std_specs::hash::group_hash_axioms;

/// The view of an optional value.
pub open spec fn opt_view(o: Option<MalVal>) -> Option<ValView> {
    match o {
        Some(v) => Some(v@),
        None => None,
    }
}

/// A table of bindings from keys to values.
pub struct Env(HashMap<u32, MalVal>);

impl View for Env {
    type V = Map<u32, ValView>;

    closed spec fn view(&self) -> Map<u32, ValView> {
        self.0@.map_values(|v: MalVal| v@)
    }
}

impl Env {
    /// An empty table.
    pub fn new() -> (r: Self)
        ensures
            r@ == Map::<u32, ValView>::empty(),
    {
        let r = Env(HashMap::new());
        proof {
            assert(r@ =~= Map::<u32, ValView>::empty());
        }
        r
    }

    /// The value bound to `key`, if any.
    pub fn get(&self, key: &u32) -> (r: Option<&MalVal>)
        ensures
            match r {
                Some(v) => self@.contains_key(*key) && self@[*key] == v@,
                None => !self@.contains_key(*key),
            },
    {
        self.0.get(key)
    }

    /// Binds `key` to `val` and gives back the value it was bound to before, if any.
    pub fn set(&mut self, key: u32, val: MalVal) -> (r: Option<MalVal>)
        ensures
            final(self)@ == old(self)@.insert(key, val@),
            opt_view(r) == (if old(self)@.contains_key(key) {
                Some(old(self)@[key])
            } else {
                None
            }),
    {
        let ghost v = val@;
        let r = self.0.insert(key, val);
        proof {
            assert(self@ =~= old(self)@.insert(key, v));
        }
        r
    }
}

/// An environment: local bindings in front of outer ones.
pub struct REnv {
    data: Env,
    outer: Env,
}

/// The view of an environment: the local bindings and the outer bindings.
pub struct EnvView {
    pub data: Map<u32, ValView>,
    pub outer: Map<u32, ValView>,
}

/// Looking `key` up: the local binding if there is one, else the outer one.
pub open spec fn env_lookup(env: EnvView, key: u32) -> Option<ValView> {
    if env.data.contains_key(key) {
        Some(env.data[key])
    } else if env.outer.contains_key(key) {
        Some(env.outer[key])
    } else {
        None
    }
}

/// The bindings that a fresh environment starts with: each built-in under its key,
/// bound to its own symbol.
pub open spec fn initial_bindings() -> Map<u32, ValView> {
    Map::<u32, ValView>::empty().insert(
        builtin_key(BuiltIn::Add),
        ValView::BSymbol(BuiltIn::Add),
    ).insert(builtin_key(BuiltIn::Sub), ValView::BSymbol(BuiltIn::Sub)).insert(
        builtin_key(BuiltIn::Div),
        ValView::BSymbol(BuiltIn::Div),
    ).insert(builtin_key(BuiltIn::Mul), ValView::BSymbol(BuiltIn::Mul))
}

/// The keys of the four built-ins are bound among the local bindings.
pub open spec fn binds_builtins(data: Map<u32, ValView>) -> bool {
    forall|b: BuiltIn| data.contains_key(#[trigger] builtin_key(b))
}

/// The environment of the read-eval-print loop. The built-ins that `new` binds stay bound
/// among its local bindings: `set` rebinds keys and never removes one.
pub struct ReplEnv(REnv);

impl View for ReplEnv {
    type V = EnvView;

    closed spec fn view(&self) -> EnvView {
        EnvView { data: self.0.data@, outer: self.0.outer@ }
    }
}

impl ReplEnv {
    /// The keys of the built-ins are bound among the local bindings.
    #[verifier::type_invariant]
    pub open spec fn keeps_builtins(self) -> bool {
        binds_builtins(self@.data)
    }

    /// A fresh environment in which the four built-ins are bound.
    pub fn new() -> (r: Self)
        ensures
            r@.data == initial_bindings(),
            r@.outer == Map::<u32, ValView>::empty(),
    {
        let mut data = Env::new();
        data.set(BuiltIn::Add.key(), MalVal::BSymbol(BuiltIn::Add));
        data.set(BuiltIn::Sub.key(), MalVal::BSymbol(BuiltIn::Sub));
        data.set(BuiltIn::Div.key(), MalVal::BSymbol(BuiltIn::Div));
        data.set(BuiltIn::Mul.key(), MalVal::BSymbol(BuiltIn::Mul));
        proof {
            assert(data@ =~= initial_bindings());
            assert forall|b: BuiltIn| data@.contains_key(#[trigger] builtin_key(b)) by {
                match b {
                    BuiltIn::Add => {},
                    BuiltIn::Sub => {},
                    BuiltIn::Mul => {},
                    BuiltIn::Div => {},
                }
            }
        }
        ReplEnv(REnv { data, outer: Env::new() })
    }

    /// Binds `key` to `val` among the local bindings; gives back the local value it was
    /// bound to before, if any.
    pub fn set(&mut self, key: u32, val: MalVal) -> (r: Option<MalVal>)
        ensures
            final(self)@.data == old(self)@.data.insert(key, val@),
            final(self)@.outer == old(self)@.outer,
            opt_view(r) == (if old(self)@.data.contains_key(key) {
                Some(old(self)@.data[key])
            } else {
                None
            }),
    {
        let mut prev = ReplEnv::new();
        std::mem::swap(&mut prev, self);
        proof {
            use_type_invariant(&prev);
        }
        let ReplEnv(mut inner) = prev;
        let r = inner.data.set(key, val);
        *self = ReplEnv(inner);
        r
    }

    /// A copy of the value that `key` is bound to locally. The key must be bound among
    /// the local bindings: looking up any other key panics in the shared-cell form of this
    /// environment, which holds its first borrow while it looks at the outer bindings.
    pub fn get(&self, key: &u32) -> (r: Option<MalVal>)
        requires
            self@.data.contains_key(*key),
        ensures
            opt_view(r) == Some(self@.data[*key]),
            opt_view(r) == env_lookup(self@, *key),
    {
        match self.0.data.get(key) {
            Some(val) => Some(val.copy()),
            None => None,
        }
    }
}

} // verus!
