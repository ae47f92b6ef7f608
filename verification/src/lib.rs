//! A small Lisp interpreter: values and expressions, a reader, environments and an
//! evaluator for arithmetic over the built-in operators.

use vstd::prelude::*;

pub mod env;
pub mod laws;
pub mod prims;
pub mod reader;
pub mod text;
pub mod types;

use crate::env::{env_lookup, EnvView, ReplEnv};
use crate::prims::{binop_checked, outcome_view, result_view, spec_binop};
use crate::text::int_decimal;
use crate::types::{
    builtin_key, builtin_named, display_expr, display_val, exprs_view, fails_with,
    lemma_expr_view, op_text, quote_open, seq_view, BuiltIn, Builtin, ErrorView, Expr, ExprView,
    MalContainer, MalError, MalResult, MalVal, ValView,
};

verus! {

broadcast use lemma_expr_view;

/// What `eval_as_fun` makes of an evaluated head: a built-in symbol stands for its
/// operator; a symbol is looked up under the key of the built-in whose operator text it
/// is, and must be bound to a built-in symbol; anything else is not a function.
pub open spec fn spec_eval_as_fun(env: EnvView, e: ExprView) -> Result<Builtin, ErrorView> {
    match e {
        ExprView::Value(ValView::BSymbol(b)) => Ok(Builtin::Binary(b)),
        ExprView::Value(ValView::Symbol(s)) => match builtin_named(s) {
            None => Err(ErrorView::UnknownIdent(s)),
            Some(b) => match env_lookup(env, builtin_key(b)) {
                None => Err(ErrorView::UnknownIdent(s)),
                Some(ValView::BSymbol(f)) => Ok(Builtin::Binary(f)),
                Some(other) => Err(
                    ErrorView::NotAFun("got: "@ + display_val(other) + ". Not a function"@),
                ),
            },
        },
        _ => Err(ErrorView::NotAFun("got: "@ + display_expr(e) + ". Not a function"@)),
    }
}

/// Folding `op` from the left over `xs`, starting from `acc`; stops at the first error.
/// `None` where the arithmetic panics.
pub open spec fn spec_fold(op: BuiltIn, acc: ExprView, xs: Seq<ExprView>) -> Option<
    Result<ExprView, ErrorView>,
>
    decreases xs.len(),
{
    if xs.len() == 0 {
        Some(Ok(acc))
    } else {
        match spec_fold(op, acc, xs.drop_last()) {
            None => None,
            Some(Err(e)) => Some(Err(e)),
            Some(Ok(a)) => spec_binop(op, a, xs.last()),
        }
    }
}

/// Applying a primitive to its arguments. `None` where applying panics: for no
/// arguments at all, and where the arithmetic panics.
pub open spec fn spec_apply(args: Seq<ExprView>, f: Builtin) -> Option<Result<ExprView, ErrorView>> {
    if args.len() == 0 {
        None
    } else {
        match f {
            Builtin::Binary(op) => spec_fold(op, args[0], args.drop_first()),
        }
    }
}

/// Evaluating an expression in `env`. Values evaluate to themselves; the empty list to the
/// empty list; a one-element list to the value of its element. A longer list evaluates its
/// head and turns that into a primitive (stopping at the first error), then evaluates all
/// the other elements in order and applies the primitive to them; among the elements, the
/// first error is the result. `None` where evaluation panics: on quoted forms, vectors and
/// maps in evaluated positions, and where an application panics. Since every element is
/// evaluated, a panic in any of them is a panic of the whole, even after an error.
pub open spec fn spec_eval(env: EnvView, e: ExprView) -> Option<Result<ExprView, ErrorView>>
    decreases e, 1nat,
{
    match e {
        ExprView::Value(v) => Some(Ok(ExprView::Value(v))),
        ExprView::List(es) => if es.len() >= 2 {
            match spec_eval(env, es[0]) {
                None => None,
                Some(Err(err)) => Some(Err(err)),
                Some(Ok(head)) => match spec_eval_as_fun(env, head) {
                    Err(err) => Some(Err(err)),
                    Ok(f) => match spec_eval_args(env, es, es.len() as int) {
                        None => None,
                        Some(Err(err)) => Some(Err(err)),
                        Some(Ok(args)) => spec_apply(args, f),
                    },
                },
            }
        } else if es.len() == 1 {
            spec_eval(env, es[0])
        } else {
            Some(Ok(ExprView::List(seq![])))
        },
        _ => None,
    }
}

/// Evaluating the elements `es[1..n]` in order: all of them are evaluated; the first
/// error among them is the result; `None` if any evaluation panics.
pub open spec fn spec_eval_args(env: EnvView, es: Seq<ExprView>, n: int) -> Option<
    Result<Seq<ExprView>, ErrorView>,
>
    decreases es, 0nat, n,
{
    if n <= 1 || n > es.len() {
        Some(Ok(seq![]))
    } else {
        match (spec_eval_args(env, es, n - 1), spec_eval(env, es[n - 1])) {
            (None, _) => None,
            (_, None) => None,
            (Some(Err(e)), _) => Some(Err(e)),
            (Some(Ok(_)), Some(Err(e))) => Some(Err(e)),
            (Some(Ok(vs)), Some(Ok(v))) => Some(Ok(vs.push(v))),
        }
    }
}

} // verus!

verus! {

/// Turns an evaluated head into a primitive (see `spec_eval_as_fun`).
pub fn eval_as_fun(env: &ReplEnv, expr: Expr) -> (r: MalResult<Builtin>)
    ensures
        match spec_eval_as_fun(env@, expr@) {
            Ok(f) => r == Ok::<Builtin, MalError>(f),
            Err(e) => fails_with(r, e),
        },
{
    match expr {
        Expr::Value(MalVal::BSymbol(s)) => Ok(Builtin::Binary(s)),
        Expr::Value(MalVal::Symbol(s)) => {
            match BuiltIn::named(s.as_str()) {
                None => MalError::unknown_ident(s.as_str()),
                Some(b) => match {
                    proof {
                        use_type_invariant(env);
                    }
                    env.get(&b.key())
                } {
                    None => MalError::unknown_ident(s.as_str()),
                    Some(MalVal::BSymbol(f)) => Ok(Builtin::Binary(f)),
                    Some(other) => {
                        let mut m = String::from_str("got: ");
                        other.push_display(&mut m);
                        m.append(". Not a function");
                        MalError::not_afun_error(m.as_str())
                    },
                },
            }
        },
        other => {
            let mut m = String::from_str("got: ");
            other.push_display(&mut m);
            m.append(". Not a function");
            MalError::not_afun_error(m.as_str())
        },
    }
}

/// Applies a primitive; `None` exactly where the application would panic.
#[verifier::rlimit(30)]
pub fn apply_checked(args: Vec<Expr>, b: Builtin) -> (r: Option<MalResult<Expr>>)
    ensures
        outcome_view(r) == spec_apply(seq_view(args@), b),
{
    let ghost views = seq_view(args@);
    if args.len() == 0 {
        return None;
    }
    let mut rest_args = args;
    let first = rest_args.remove(0);
    let ghost rest = seq_view(rest_args@);
    proof {
        assert(rest =~= views.drop_first());
    }
    match b {
        Builtin::Binary(op) => {
            let mut acc = first;
            let n = rest_args.len();
            let mut i: usize = 0;
            proof {
                assert(rest.take(0) =~= Seq::<ExprView>::empty());
            }
            while i < n
                invariant
                    n == rest_args@.len(),
                    rest == seq_view(rest_args@),
                    views == seq_view(args@),
                    views.len() >= 1,
                    rest == views.drop_first(),
                    b == Builtin::Binary(op),
                    i <= n,
                    spec_fold(op, views[0], rest.take(i as int)) == Some(
                        Ok::<ExprView, ErrorView>(acc@),
                    ),
                decreases n - i,
            {
                let step = binop_checked(op, &acc, &rest_args[i]);
                proof {
                    let t = rest.take(i + 1);
                    assert(t.drop_last() =~= rest.take(i as int));
                    assert(t.last() == rest[i as int]);
                }
                match step {
                    None => {
                        proof {
                            lemma_fold_stops(op, views[0], rest, i as int + 1);
                        }
                        return None;
                    },
                    Some(Err(e)) => {
                        proof {
                            lemma_fold_stops(op, views[0], rest, i as int + 1);
                        }
                        return Some(Err(e));
                    },
                    Some(Ok(v)) => {
                        acc = v;
                    },
                }
                i += 1;
            }
            proof {
                assert(rest.take(n as int) =~= rest);
            }
            Some(Ok(acc))
        },
    }
}

/// Once a fold has failed or panicked, folding over more elements gives the same outcome.
proof fn lemma_fold_stops(op: BuiltIn, acc: ExprView, xs: Seq<ExprView>, k: int)
    requires
        0 <= k <= xs.len(),
        !(spec_fold(op, acc, xs.take(k)) matches Some(Ok(_))),
    ensures
        spec_fold(op, acc, xs) == spec_fold(op, acc, xs.take(k)),
    decreases xs.len() - k,
{
    if k < xs.len() {
        let t = xs.take(k + 1);
        assert(t.drop_last() =~= xs.take(k));
        lemma_fold_stops(op, acc, xs, k + 1);
    } else {
        assert(xs.take(k) =~= xs);
    }
}

/// Applies a primitive to its arguments (see `spec_apply`).
pub fn apply(args: Vec<Expr>, b: Builtin) -> (r: MalResult<Expr>)
    requires
        spec_apply(seq_view(args@), b) is Some,
    ensures
        Some(result_view(r)) == spec_apply(seq_view(args@), b),
{
    apply_checked(args, b).unwrap()
}

} // verus!

verus! {

/// Once an argument's evaluation panics, evaluating more arguments still panics.
proof fn lemma_args_panic_sticks(env: EnvView, es: Seq<ExprView>, k: int, n: int)
    requires
        2 <= k <= n <= es.len(),
        spec_eval_args(env, es, k) is None,
    ensures
        spec_eval_args(env, es, n) is None,
    decreases n - k,
{
    if k < n {
        lemma_args_panic_sticks(env, es, k, n - 1);
    }
}

/// Evaluates an expression; `None` exactly where the evaluation would panic
/// (see `spec_eval`).
#[verifier::rlimit(40)]
pub fn eval_checked(env: &ReplEnv, input: &Expr) -> (r: Option<MalResult<Expr>>)
    ensures
        outcome_view(r) == spec_eval(env@, input@),
    decreases input, 1nat,
{
    match input {
        Expr::Value(v) => Some(Ok(Expr::Value(v.copy()))),
        Expr::Container(MalContainer::List(es)) => {
            let n = es.len();
            proof {
                let c = (*input)->Container_0;
                assert(decreases_to!(*input => c));
                assert(decreases_to!(c => c->List_0));
                assert(decreases_to!(*es => es@));
            }
            if n >= 2 {
                proof {
                    assert(decreases_to!(es@ => es@[0]));
                }
                let head = match eval_checked(env, &es[0]) {
                    None => return None,
                    Some(Err(e)) => return Some(Err(e)),
                    Some(Ok(h)) => h,
                };
                let f = match eval_as_fun(env, head) {
                    Err(e) => return Some(Err(e)),
                    Ok(f) => f,
                };
                match eval_args_checked(env, input, es) {
                    None => None,
                    Some(Err(e)) => Some(Err(e)),
                    Some(Ok(vals)) => apply_checked(vals, f),
                }
            } else if n == 1 {
                proof {
                    assert(decreases_to!(es@ => es@[0]));
                }
                eval_checked(env, &es[0])
            } else {
                let empty: Vec<Expr> = Vec::new();
                proof {
                    assert(seq_view(empty@) =~= Seq::<ExprView>::empty());
                }
                let r = Expr::list(empty);
                Some(Ok(r))
            }
        },
        _ => None,
    }
}

/// Evaluates `es[1..]` in order (see `spec_eval_args`).
#[verifier::rlimit(30)]
fn eval_args_checked(env: &ReplEnv, whole: &Expr, es: &Vec<Box<Expr>>) -> (r: Option<
    Result<Vec<Expr>, MalError>,
>)
    requires
        *whole == Expr::Container(MalContainer::List(*es)),
    ensures
        match (r, spec_eval_args(env@, exprs_view(es@), es@.len() as int)) {
            (None, None) => true,
            (Some(Ok(vals)), Some(Ok(vs))) => seq_view(vals@) == vs,
            (Some(Err(e)), Some(Err(err))) => e@ == err,
            _ => false,
        },
    decreases whole, 0nat,
{
    let ghost views = exprs_view(es@);
    let n = es.len();
    let mut vals: Vec<Expr> = Vec::new();
    let mut first_err: Option<MalError> = None;
    let mut i: usize = 1;
    proof {
        assert(seq_view(vals@) =~= Seq::<ExprView>::empty());
    }
    while i < n
        invariant
            1 <= i,
            i <= n || n == 0,
            n == es@.len(),
            views == exprs_view(es@),
            *whole == Expr::Container(MalContainer::List(*es)),
            spec_eval_args(env@, views, i as int) == Some(
                match first_err {
                    Some(e) => Err::<Seq<ExprView>, ErrorView>(e@),
                    None => Ok(seq_view(vals@)),
                },
            ),
        decreases n - i,
    {
        proof {
            let c = (*whole)->Container_0;
            assert(decreases_to!(*whole => c));
            assert(decreases_to!(c => c->List_0));
            assert(decreases_to!(*es => es@));
            assert(decreases_to!(es@ => es@[i as int]));
        }
        let r = eval_checked(env, &es[i]);
        proof {
            assert(views[i as int] == (*es@[i as int])@);
        }
        match r {
            None => {
                proof {
                    lemma_args_panic_sticks(env@, views, i + 1, n as int);
                }
                return None;
            },
            Some(Err(e)) => {
                if first_err.is_none() {
                    first_err = Some(e);
                }
            },
            Some(Ok(v)) => {
                if first_err.is_none() {
                    let ghost prev = vals@;
                    vals.push(v);
                    proof {
                        assert(seq_view(vals@) =~= seq_view(prev).push(vals@[vals@.len() - 1]@));
                    }
                }
            },
        }
        i += 1;
    }
    proof {
        if n <= 1 {
            assert(spec_eval_args(env@, views, n as int) == spec_eval_args(env@, views, i as int));
        }
    }
    match first_err {
        Some(e) => Some(Err(e)),
        None => Some(Ok(vals)),
    }
}

} // verus!

verus! {

/// Evaluates an expression (see `spec_eval`).
pub fn eval(env: &ReplEnv, input: Expr) -> (r: MalResult<Expr>)
    requires
        spec_eval(env@, input@) is Some,
    ensures
        Some(result_view(r)) == spec_eval(env@, input@),
{
    eval_checked(env, &input).unwrap()
}

/// What `eval_as_val` gives: the value an expression evaluates to; an evaluation to
/// something that is not a value is an error that names it.
pub open spec fn spec_eval_as_val(env: EnvView, e: ExprView) -> Option<Result<ValView, ErrorView>> {
    match spec_eval(env, e) {
        None => None,
        Some(Err(err)) => Some(Err(err)),
        Some(Ok(ExprView::Value(v))) => Some(Ok(v)),
        Some(Ok(other)) => Some(
            Err(ErrorView::Other("got: "@ + display_expr(other) + ". Expected value"@)),
        ),
    }
}

/// Evaluates an expression that must give a value (see `spec_eval_as_val`).
pub fn eval_as_val(env: &ReplEnv, expr: Expr) -> (r: MalResult<MalVal>)
    requires
        spec_eval(env@, expr@) is Some,
    ensures
        match spec_eval_as_val(env@, expr@) {
            Some(Ok(v)) => r matches Ok(val) && val@ == v,
            Some(Err(e)) => fails_with(r, e),
            None => false,
        },
{
    match eval(env, expr)? {
        Expr::Value(v) => Ok(v),
        other => {
            let mut m = String::from_str("got: ");
            other.push_display(&mut m);
            m.append(". Expected value");
            MalError::other_error(m.as_str())
        },
    }
}

/// How the read-eval-print loop prints an expression: like `display_expr`, except that a
/// built-in symbol is printed as its operator text and that this also holds inside quoted
/// forms.
pub open spec fn print_spec(e: ExprView) -> Seq<char>
    decreases e,
{
    match e {
        ExprView::Value(v) => match v {
            ValView::Number(n) => int_decimal(n as int),
            ValView::Str(s) => seq!['"'] + s + seq!['"'],
            ValView::Symbol(s) => s,
            ValView::BSymbol(b) => op_text(b),
            ValView::Keyword(k) => seq![':'] + k,
        },
        ExprView::Quoted(k, x) => quote_open(k) + print_spec(*x) + seq![')'],
        _ => display_expr(e),
    }
}

/// Prints an expression (see `print_spec`).
#[verifier::rlimit(30)]
pub fn print(expr: &Expr) -> (r: String)
    ensures
        r@ == print_spec(expr@),
    decreases expr,
{
    match expr {
        Expr::Value(v) => match v {
            MalVal::BSymbol(s) => s.to_string(),
            _ => v.to_string(),
        },
        Expr::Quoted(tag, e) => {
            let mut s = String::new();
            match tag {
                types::QuoteKind::Quote => s.append("(quote "),
                types::QuoteKind::Quasi => s.append("(quasiquote "),
                types::QuoteKind::Unquote => s.append("(unquote "),
                types::QuoteKind::SpliceUnquote => s.append("(splice-unquote "),
            }
            let inner = print(e);
            s.append(inner.as_str());
            proof {
                reveal_strlit(")");
            }
            s.append(")");
            proof {
                assert(s@ =~= print_spec(expr@));
            }
            s
        },
        other => other.to_string(),
    }
}

} // verus!
