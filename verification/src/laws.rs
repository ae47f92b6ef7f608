//! Properties of the library as a whole, over the spec functions that the contracts use.

use vstd::prelude::*;

use crate::env::{env_lookup, initial_bindings, EnvView};
use crate::text::{digit_char, nat_decimal};
use crate::types::{
    builtin_key, builtin_named, display_expr, display_exprs, entries_found, expr_equiv,
    exprs_equiv, keys_unique, map_insert, map_lookup, op_text, key_index, BuiltIn, Builtin,
    ExprView, QuoteKind, ValView,
};
use crate::prims::spec_binop;
use crate::reader::{
    at, build_map, digits_value, left, p_alt, p_expr, p_items, p_items_rest, p_key, p_keyword, p_map, p_number,
    p_pair, p_pairs, p_pairs_rest, p_quoted, p_seq, p_string, p_symbol, run, string_body, ws,
    CharClass,
};
use crate::{spec_apply, spec_eval, spec_eval_args, spec_eval_as_fun, spec_fold};

verus! {

/// The environment that `ReplEnv::new` makes.
pub open spec fn fresh_env() -> EnvView {
    EnvView { data: initial_bindings(), outer: Map::empty() }
}

/// Binding a key and then looking keys up: the bound key gives the new value, every other
/// key what it gave before.
pub proof fn law_lookup_after_set(env: EnvView, k: u32, v: ValView, other: u32)
    ensures
        env_lookup(EnvView { data: env.data.insert(k, v), outer: env.outer }, k) == Some(v),
        other != k ==> env_lookup(EnvView { data: env.data.insert(k, v), outer: env.outer }, other)
            == env_lookup(env, other),
{
}

/// A local binding hides an outer binding of the same key.
pub proof fn law_local_hides_outer(env: EnvView, k: u32)
    requires
        env.data.contains_key(k),
    ensures
        env_lookup(env, k) == Some(env.data[k]),
{
}

/// A fresh environment binds each built-in's key to that built-in's symbol.
pub proof fn law_fresh_env_binds_builtins(b: BuiltIn)
    ensures
        env_lookup(fresh_env(), builtin_key(b)) == Some(ValView::BSymbol(b)),
{
}

/// In a fresh environment the operator symbols `+`, `-`, `*`, `/` stand for their
/// built-ins.
pub proof fn law_operator_symbols_are_functions(b: BuiltIn)
    ensures
        spec_eval_as_fun(fresh_env(), ExprView::Value(ValView::Symbol(op_text(b))))
            == Ok::<Builtin, crate::types::ErrorView>(Builtin::Binary(b)),
{
    let t = op_text(b);
    assert(op_text(BuiltIn::Add)[0] == '+' && op_text(BuiltIn::Sub)[0] == '-' && op_text(
        BuiltIn::Mul,
    )[0] == '*' && op_text(BuiltIn::Div)[0] == '/');
    assert(t == op_text(BuiltIn::Add) ==> t[0] == '+');
    assert(t == op_text(BuiltIn::Sub) ==> t[0] == '-');
    assert(t == op_text(BuiltIn::Mul) ==> t[0] == '*');
    assert(builtin_named(t) == Some(b));
}

/// Every value evaluates to itself.
pub proof fn law_values_evaluate_to_themselves(env: EnvView, v: ValView)
    ensures
        spec_eval(env, ExprView::Value(v)) == Some(
            Ok::<ExprView, crate::types::ErrorView>(ExprView::Value(v)),
        ),
{
}

/// What an evaluation can give: a value or the empty list.
pub open spec fn evaluated(e: ExprView) -> bool {
    e is Value || e == ExprView::List(seq![])
}

proof fn lemma_fold_evaluated(op: BuiltIn, acc: ExprView, xs: Seq<ExprView>)
    requires
        evaluated(acc),
    ensures
        spec_fold(op, acc, xs) matches Some(Ok(r)) ==> evaluated(r),
    decreases xs.len(),
{
    if xs.len() > 0 {
        lemma_fold_evaluated(op, acc, xs.drop_last());
    }
}

proof fn lemma_args_evaluated(env: EnvView, es: Seq<ExprView>, n: int)
    ensures
        spec_eval_args(env, es, n) matches Some(Ok(vs)) ==> forall|i: int|
            0 <= i < vs.len() ==> evaluated(#[trigger] vs[i]),
    decreases es, 0nat, n,
{
    if 1 < n <= es.len() {
        lemma_args_evaluated(env, es, n - 1);
        law_evaluation_gives_values(env, es[n - 1]);
        if let Some(Ok(vs)) = spec_eval_args(env, es, n) {
            let prev = spec_eval_args(env, es, n - 1)->0->Ok_0;
            assert(vs == prev.push(spec_eval(env, es[n - 1])->0->Ok_0));
            assert forall|i: int| 0 <= i < vs.len() implies evaluated(#[trigger] vs[i]) by {
                if i < prev.len() {
                    assert(vs[i] == prev[i]);
                }
            }
        }
    }
}

/// Evaluation gives a value or the empty list, never a quoted form, a vector, a map or a
/// list with elements.
#[verifier::rlimit(30)]
pub proof fn law_evaluation_gives_values(env: EnvView, e: ExprView)
    ensures
        spec_eval(env, e) matches Some(Ok(r)) ==> evaluated(r),
    decreases e, 1nat,
{
    if let ExprView::List(es) = e {
        if es.len() >= 2 {
            lemma_args_evaluated(env, es, es.len() as int);
            if let Some(Ok(args)) = spec_eval_args(env, es, es.len() as int) {
                if args.len() > 0 {
                    assert(evaluated(args[0]));
                    match spec_eval(env, es[0]) {
                        Some(Ok(head)) => match spec_eval_as_fun(env, head) {
                            Ok(Builtin::Binary(op)) => {
                                lemma_fold_evaluated(op, args[0], args.drop_first());
                            },
                            _ => {},
                        },
                        _ => {},
                    }
                }
            }
        } else if es.len() == 1 {
            law_evaluation_gives_values(env, es[0]);
        }
    }
}

/// A primitive applied to a single argument gives that argument back unchanged.
pub proof fn law_apply_single(x: ExprView, f: Builtin)
    ensures
        spec_apply(seq![x], f) == Some(Ok::<ExprView, crate::types::ErrorView>(x)),
{
    assert(seq![x].drop_first() =~= Seq::<ExprView>::empty());
}

/// Number expressions.
pub open spec fn numbers(xs: Seq<i64>) -> Seq<ExprView> {
    xs.map_values(|n: i64| ExprView::Value(ValView::Number(n)))
}

/// The sum of the integers.
pub open spec fn sum(xs: Seq<i64>) -> int
    decreases xs.len(),
{
    if xs.len() == 0 {
        0
    } else {
        sum(xs.drop_last()) + xs.last()
    }
}

/// Every partial sum `xs[0] + ... + xs[k]` fits in an `i64`.
pub open spec fn sums_fit(xs: Seq<i64>) -> bool {
    forall|k: int| 1 <= k <= xs.len() ==> i64::MIN <= #[trigger] sum(xs.take(k)) <= i64::MAX
}

#[verifier::spinoff_prover]
#[verifier::rlimit(60)]
proof fn lemma_fold_sum(acc: i64, xs: Seq<i64>)
    requires
        sums_fit(seq![acc] + xs),
    ensures
        spec_fold(BuiltIn::Add, ExprView::Value(ValView::Number(acc)), numbers(xs)) == Some(
            Ok::<ExprView, crate::types::ErrorView>(
                ExprView::Value(ValView::Number(sum(seq![acc] + xs) as i64)),
            ),
        ),
    decreases xs.len(),
{
    let all = seq![acc] + xs;
    if xs.len() == 0 {
        assert(all.drop_last() =~= Seq::<i64>::empty());
        assert(all.take(1) =~= all);
    } else {
        let init = xs.drop_last();
        assert(numbers(xs).drop_last() =~= numbers(init));
        assert((seq![acc] + xs).drop_last() =~= seq![acc] + init);
        assert forall|k: int| 1 <= k <= (seq![acc] + init).len() implies i64::MIN <= #[trigger] sum(
            (seq![acc] + init).take(k),
        ) <= i64::MAX by {
            assert((seq![acc] + init).take(k) =~= all.take(k));
        }
        lemma_fold_sum(acc, init);
        let prev = sum(seq![acc] + init) as i64;
        assert(all.take(all.len() as int) =~= all);
        assert(sum(all) == sum(seq![acc] + init) + xs.last());
        assert(i64::MIN <= sum(all.take(all.len() as int)) <= i64::MAX);
        assert(seq![acc] + init =~= all.take(all.len() - 1));
        assert(i64::MIN <= sum(all.take(all.len() - 1)) <= i64::MAX);
        assert(prev == sum(seq![acc] + init));
        assert(numbers(xs).last() == num(xs.last()));
        assert(spec_fold(BuiltIn::Add, num(acc), numbers(xs)) == spec_binop(
            BuiltIn::Add,
            num(prev),
            num(xs.last()),
        ));
        law_arithmetic_on_numbers(prev, xs.last());
    }
}

/// Adding numbers: where every partial sum fits in an `i64`, `+` over numbers gives their
/// sum.
pub proof fn law_add_sums(xs: Seq<i64>)
    requires
        xs.len() >= 1,
        sums_fit(xs),
    ensures
        spec_apply(numbers(xs), Builtin::Binary(BuiltIn::Add)) == Some(
            Ok::<ExprView, crate::types::ErrorView>(ExprView::Value(ValView::Number(sum(xs) as i64))),
        ),
{
    let rest = xs.drop_first();
    assert(xs =~= seq![xs[0]] + rest);
    assert(numbers(xs).drop_first() =~= numbers(rest));
    lemma_fold_sum(xs[0], rest);
}

/// Binding a key in a map with unique keys: the keys stay unique, the key gives the new
/// value, every other key what it gave before.
#[verifier::rlimit(30)]
pub proof fn law_map_insert(
    ps: Seq<(ValView, ExprView)>,
    k: ValView,
    v: ExprView,
    other: ValView,
)
    requires
        keys_unique(ps),
    ensures
        keys_unique(map_insert(ps, k, v)),
        map_lookup(map_insert(ps, k, v), k) == Some(v),
        other != k ==> map_lookup(map_insert(ps, k, v), other) == map_lookup(ps, other),
{
    let r = map_insert(ps, k, v);
    match key_index(ps, k) {
        Some(i) => {
            assert(r[i].0 == k);
            let ri = key_index(r, k);
            assert(ri->0 == i);
            if other != k {
                match key_index(ps, other) {
                    Some(j) => {
                        assert(r[j].0 == other);
                        let rj = key_index(r, other);
                        assert(rj is Some);
                        assert(rj->0 == j);
                    },
                    None => {
                        if key_index(r, other) is Some {
                            let j = key_index(r, other)->0;
                            assert(ps[j].0 == other);
                        }
                    },
                }
            }
        },
        None => {
            assert(r[ps.len() as int].0 == k);
            let ri = key_index(r, k);
            assert(ri->0 == ps.len());
            if other != k {
                match key_index(ps, other) {
                    Some(j) => {
                        assert(r[j].0 == other);
                        let rj = key_index(r, other);
                        assert(rj->0 == j);
                    },
                    None => {
                        if key_index(r, other) is Some {
                            let j = key_index(r, other)->0;
                            assert(ps[j].0 == other);
                        }
                    },
                }
            }
        },
    }
}

/// The value that the last pair with key `k` binds, if any.
pub open spec fn last_binding(ps: Seq<(ValView, ExprView)>, k: ValView) -> Option<ExprView>
    decreases ps.len(),
{
    if ps.len() == 0 {
        None
    } else if ps.last().0 == k {
        Some(ps.last().1)
    } else {
        last_binding(ps.drop_last(), k)
    }
}

/// Binding pairs in order into a map: no key occurs twice, and each key gives the value of
/// the last pair that binds it.
pub proof fn law_map_last_binding_wins(ps: Seq<(ValView, ExprView)>, k: ValView)
    ensures
        keys_unique(build_map(ps)),
        map_lookup(build_map(ps), k) == last_binding(ps, k),
    decreases ps.len(),
{
    if ps.len() == 0 {
        assert(key_index(build_map(ps), k) is None);
    } else {
        law_map_last_binding_wins(ps.drop_last(), k);
        law_map_insert(build_map(ps.drop_last()), ps.last().0, ps.last().1, k);
    }
}

// ------------------------------------------------------------------------------------------
// The reader stays within its input
// ------------------------------------------------------------------------------------------

proof fn lemma_run_bound(s: Seq<char>, i: int, cls: CharClass)
    requires
        0 <= i <= s.len(),
    ensures
        i + run(s, i, cls) <= s.len(),
    decreases s.len() - i,
{
    if i < s.len() {
        lemma_run_bound(s, i + 1, cls);
    }
}

proof fn lemma_ws_bound(s: Seq<char>, i: int)
    requires
        0 <= i <= s.len(),
    ensures
        i + ws(s, i) <= s.len(),
{
    lemma_run_bound(s, i, CharClass::Comma);
    lemma_run_bound(s, i, CharClass::Space);
}

proof fn lemma_string_body_bound(s: Seq<char>, i: int)
    requires
        0 <= i <= s.len(),
    ensures
        string_body(s, i) matches Some((n, _)) ==> 1 <= n && i + n <= s.len(),
    decreases s.len() - i,
{
    if 0 <= i < s.len() && s[i] != '"' {
        if s[i] == '\\' {
            if i + 2 <= s.len() {
                lemma_string_body_bound(s, i + 2);
            }
        } else {
            lemma_string_body_bound(s, i + 1);
        }
    }
}

proof fn lemma_atom_bounds(s: Seq<char>, i: int)
    requires
        0 <= i <= s.len(),
    ensures
        p_symbol(s, i) matches Some((n, _)) ==> 1 <= n && i + n <= s.len(),
        p_keyword(s, i) matches Some((n, _)) ==> 1 <= n && i + n <= s.len(),
        p_number(s, i) matches Some((n, _)) ==> 1 <= n && i + n <= s.len(),
        p_string(s, i) matches Some((n, _)) ==> 1 <= n && i + n <= s.len(),
        p_key(s, i) matches Some((n, _)) ==> 1 <= n && i + n <= s.len(),
{
    lemma_ws_bound(s, i);
    let j = i + ws(s, i);
    lemma_run_bound(s, j, CharClass::SymbolChar);
    lemma_run_bound(s, j, CharClass::Digit);
    if j < s.len() {
        lemma_run_bound(s, j + 1, CharClass::SymbolChar);
    }
    if i < s.len() {
        lemma_string_body_bound(s, i + 1);
    }
}

proof fn lemma_expr_bounds(s: Seq<char>, i: int)
    requires
        0 <= i <= s.len(),
    ensures
        p_expr(s, i) matches Some((n, _)) ==> 1 <= n && i + n <= s.len(),
    decreases left(s, i), 3nat,
{
    lemma_ws_bound(s, i);
    lemma_alt_bounds(s, i + ws(s, i));
}

proof fn lemma_alt_bounds(s: Seq<char>, j: int)
    requires
        0 <= j <= s.len(),
    ensures
        p_alt(s, j) matches Some((n, _)) ==> 1 <= n && j + n <= s.len(),
    decreases left(s, j), 2nat,
{
    lemma_seq_bounds(s, j, '(', ')');
    lemma_seq_bounds(s, j, '[', ']');
    lemma_map_bounds(s, j);
    lemma_atom_bounds(s, j);
    lemma_quoted_bounds(s, j);
}

proof fn lemma_quoted_bounds(s: Seq<char>, j: int)
    requires
        0 <= j <= s.len(),
    ensures
        p_quoted(s, j) matches Some((n, _)) ==> 1 <= n && j + n <= s.len(),
    decreases left(s, j), 1nat,
{
    if at(s, j, '`') || at(s, j, '\'') || at(s, j, '~') {
        lemma_expr_bounds(s, j + 1);
        if at(s, j + 1, '@') {
            lemma_expr_bounds(s, j + 2);
        }
    }
}

proof fn lemma_seq_bounds(s: Seq<char>, j: int, open: char, close: char)
    requires
        0 <= j <= s.len(),
    ensures
        p_seq(s, j, open, close) matches Some((n, _)) ==> 1 <= n && j + n <= s.len(),
    decreases left(s, j), 1nat,
{
    lemma_ws_bound(s, j);
    let k = j + ws(s, j);
    if at(s, k, open) {
        lemma_items_bounds(s, k + 1);
        if let Some((m, _)) = p_items(s, k + 1) {
            lemma_ws_bound(s, k + 1 + m);
        }
    }
}

proof fn lemma_items_bounds(s: Seq<char>, k: int)
    requires
        0 <= k <= s.len(),
    ensures
        p_items(s, k) matches Some((m, _)) ==> k + m <= s.len(),
    decreases left(s, k), 5nat,
{
    lemma_expr_bounds(s, k);
    if let Some((n, _)) = p_expr(s, k) {
        lemma_items_rest_bounds(s, k + n);
    }
}

proof fn lemma_items_rest_bounds(s: Seq<char>, q: int)
    requires
        0 <= q <= s.len(),
    ensures
        p_items_rest(s, q) matches Some((m, _)) ==> q + m <= s.len(),
    decreases left(s, q), 4nat,
{
    if q < s.len() {
        lemma_ws_bound(s, q);
        let w = ws(s, q);
        lemma_expr_bounds(s, q + w);
        if let Some((n, _)) = p_expr(s, q + w) {
            if w + n != 0 {
                lemma_items_rest_bounds(s, q + w + n);
            }
        }
    }
}

proof fn lemma_map_bounds(s: Seq<char>, j: int)
    requires
        0 <= j <= s.len(),
    ensures
        p_map(s, j) matches Some((n, _)) ==> 1 <= n && j + n <= s.len(),
    decreases left(s, j), 1nat,
{
    if at(s, j, '{') {
        lemma_ws_bound(s, j + 1);
        lemma_pairs_bounds(s, j + 1 + ws(s, j + 1));
    }
}

proof fn lemma_pairs_bounds(s: Seq<char>, k: int)
    requires
        0 <= k <= s.len(),
    ensures
        p_pairs(s, k) matches Some((m, _)) ==> k + m <= s.len(),
    decreases left(s, k), 5nat,
{
    lemma_pair_bounds(s, k);
    if let Some((n, _)) = p_pair(s, k) {
        lemma_pairs_rest_bounds(s, k + n);
    }
}

proof fn lemma_pairs_rest_bounds(s: Seq<char>, q: int)
    requires
        0 <= q <= s.len(),
    ensures
        p_pairs_rest(s, q) matches Some((m, _)) ==> q + m <= s.len(),
    decreases left(s, q), 4nat,
{
    if q < s.len() {
        lemma_ws_bound(s, q);
        let w = ws(s, q);
        lemma_pair_bounds(s, q + w);
        if let Some((n, _)) = p_pair(s, q + w) {
            if w + n != 0 {
                lemma_pairs_rest_bounds(s, q + w + n);
            }
        }
    }
}

proof fn lemma_pair_bounds(s: Seq<char>, x: int)
    requires
        0 <= x <= s.len(),
    ensures
        p_pair(s, x) matches Some((n, _)) ==> 1 <= n && x + n <= s.len(),
    decreases left(s, x), 0nat,
{
    lemma_ws_bound(s, x);
    let x1 = x + ws(s, x);
    lemma_atom_bounds(s, x1);
    if let Some((nk, _)) = p_key(s, x1) {
        let x2 = x1 + nk;
        lemma_ws_bound(s, x2);
        let x3 = x2 + ws(s, x2);
        lemma_expr_bounds(s, x3);
        if let Some((nv, _)) = p_expr(s, x3) {
            lemma_ws_bound(s, x3 + nv);
        }
    }
}

/// The reader consumes at least one character for every expression it reads, and never
/// reads past the end of its input.
pub proof fn law_reader_stays_within_input(s: Seq<char>, i: int)
    requires
        0 <= i <= s.len(),
    ensures
        p_expr(s, i) matches Some((n, _)) ==> 1 <= n <= s.len() - i,
{
    lemma_expr_bounds(s, i);
}

// ------------------------------------------------------------------------------------------
// Reading back what was printed
// ------------------------------------------------------------------------------------------

/// A run of exactly `n` characters of `cls` starts at `i`.
proof fn lemma_run_exact(s: Seq<char>, i: int, n: int, cls: CharClass)
    requires
        0 <= i,
        0 <= n,
        i + n <= s.len(),
        forall|p: int| i <= p < i + n ==> crate::reader::in_class(cls, #[trigger] s[p]),
        i + n == s.len() || !crate::reader::in_class(cls, s[i + n]),
    ensures
        run(s, i, cls) == n,
    decreases n,
{
    if n > 0 {
        lemma_run_exact(s, i + 1, n - 1, cls);
    }
}

/// The characters of a slice of text, by position.
proof fn lemma_at_in(s: Seq<char>, a: int, w: Seq<char>)
    requires
        0 <= a,
        a + w.len() <= s.len(),
        s.subrange(a, a + w.len()) == w,
    ensures
        forall|k: int| 0 <= k < w.len() ==> s[a + k] == #[trigger] w[k],
{
    assert forall|k: int| 0 <= k < w.len() implies s[a + k] == #[trigger] w[k] by {
        assert(s.subrange(a, a + w.len())[k] == s[a + k]);
    }
}

/// Text that is a symbol when read: not empty, and only characters that may stand in a
/// symbol.
pub open spec fn symbol_text(t: Seq<char>) -> bool {
    t.len() > 0 && forall|p: int|
        0 <= p < t.len() ==> crate::reader::in_class(CharClass::SymbolChar, #[trigger] t[p])
}

/// The name of a symbol that reads back as that symbol: symbol text that does not start
/// with a digit (text that does is read as a number first).
pub open spec fn symbol_name(t: Seq<char>) -> bool {
    symbol_text(t) && !crate::reader::in_class(CharClass::Digit, t[0])
}

/// Reading the printed form of a symbol gives the symbol back and consumes all of it.
pub proof fn law_symbol_reads_back(t: Seq<char>)
    requires
        symbol_name(t),
    ensures
        crate::print_spec(ExprView::Value(ValView::Symbol(t))) == t,
        p_expr(t, 0) == Some((t.len(), ExprView::Value(ValView::Symbol(t)))),
{
    lemma_run_exact(t, 0, t.len() as int, CharClass::SymbolChar);
    assert(!crate::reader::is_special(t[0]));
    assert(run(t, 0, CharClass::Space) == 0);
    assert(run(t, 0, CharClass::Digit) == 0);
    assert(t.subrange(0, t.len() as int) =~= t);
}

/// Reading the printed form of a keyword gives the keyword back and consumes all of it.
pub proof fn law_keyword_reads_back(t: Seq<char>)
    requires
        symbol_text(t),
    ensures
        crate::print_spec(ExprView::Value(ValView::Keyword(t))) == seq![':'] + t,
        p_expr(seq![':'] + t, 0) == Some(((t.len() + 1) as nat, ExprView::Value(ValView::Keyword(t)))),
{
    let s = seq![':'] + t;
    assert forall|p: int| 1 <= p < 1 + t.len() implies crate::reader::in_class(
        CharClass::SymbolChar,
        #[trigger] s[p],
    ) by {
        assert(s[p] == t[p - 1]);
    }
    lemma_run_exact(s, 1, t.len() as int, CharClass::SymbolChar);
    assert(run(s, 0, CharClass::Space) == 0);
    assert(run(s, 0, CharClass::SymbolChar) == 0);
    assert(run(s, 0, CharClass::Digit) == 0);
    assert(s.subrange(1, s.len() as int) =~= t);
}

/// A decimal digit character is a digit, and its code less 48 is its value.
proof fn lemma_digit_char(x: nat)
    requires
        x < 10,
    ensures
        crate::reader::in_class(CharClass::Digit, digit_char(x)),
        ((digit_char(x) as u32) - 48) as nat == x,
{
}

/// The decimal digits of a natural number are digits, and read back as its value.
proof fn lemma_nat_decimal_digits(n: nat)
    ensures
        nat_decimal(n).len() > 0,
        forall|p: int|
            0 <= p < nat_decimal(n).len() ==> crate::reader::in_class(
                CharClass::Digit,
                #[trigger] nat_decimal(n)[p],
            ),
        digits_value(nat_decimal(n)) == n,
    decreases n,
{
    lemma_digit_char(n % 10);
    if n < 10 {
        assert(nat_decimal(n).drop_last() =~= Seq::<char>::empty());
        assert(digits_value(Seq::<char>::empty()) == 0);
    } else {
        lemma_nat_decimal_digits(n / 10);
        let d = nat_decimal(n);
        assert(d.drop_last() =~= nat_decimal(n / 10));
        assert(d.last() == digit_char(n % 10));
        assert(n == (n / 10) * 10 + n % 10);
        assert forall|p: int| 0 <= p < d.len() implies crate::reader::in_class(
            CharClass::Digit,
            #[trigger] d[p],
        ) by {
            if p < d.len() - 1 {
                assert(d[p] == nat_decimal(n / 10)[p]);
            }
        }
    }
}

/// Reading the printed form of a number that is not negative gives the number back and
/// consumes all of it.
pub proof fn law_number_reads_back(n: i64)
    requires
        n >= 0,
    ensures
        crate::print_spec(ExprView::Value(ValView::Number(n))) == nat_decimal(n as nat),
        p_expr(nat_decimal(n as nat), 0) == Some(
            (nat_decimal(n as nat).len(), ExprView::Value(ValView::Number(n))),
        ),
{
    let t = nat_decimal(n as nat);
    lemma_nat_decimal_digits(n as nat);
    lemma_run_exact(t, 0, t.len() as int, CharClass::Digit);
    assert(run(t, 0, CharClass::Space) == 0);
    assert(t.subrange(0, t.len() as int) =~= t);
}

/// Text that a string holds without escapes: no double quote and no backslash.
pub open spec fn plain_text(t: Seq<char>) -> bool {
    forall|p: int| 0 <= p < t.len() ==> #[trigger] t[p] != '"' && t[p] != '\\'
}

proof fn lemma_plain_body(t: Seq<char>, i: int)
    requires
        plain_text(t),
        1 <= i <= t.len() + 1,
    ensures
        string_body(seq!['"'] + t + seq!['"'], i) == Some(
            ((t.len() + 2 - i) as nat, t.subrange(i - 1, t.len() as int)),
        ),
    decreases t.len() + 1 - i,
{
    let s = seq!['"'] + t + seq!['"'];
    if i == t.len() + 1 {
        assert(s[i] == '"');
        assert(t.subrange(i - 1, t.len() as int) =~= Seq::<char>::empty());
    } else {
        assert(s[i] == t[i - 1]);
        lemma_plain_body(t, i + 1);
        assert(seq![s[i]] + t.subrange(i, t.len() as int) =~= t.subrange(i - 1, t.len() as int));
    }
}

/// Reading the printed form of a string without escapes gives the string back and
/// consumes all of it.
pub proof fn law_plain_string_reads_back(t: Seq<char>)
    requires
        plain_text(t),
    ensures
        crate::print_spec(ExprView::Value(ValView::Str(t))) == seq!['"'] + t + seq!['"'],
        p_expr(seq!['"'] + t + seq!['"'], 0) == Some(
            ((t.len() + 2) as nat, ExprView::Value(ValView::Str(t))),
        ),
{
    let s = seq!['"'] + t + seq!['"'];
    lemma_plain_body(t, 1);
    assert(t.subrange(0, t.len() as int) =~= t);
    assert(s[0] == '"');
    assert(run(s, 0, CharClass::Space) == 0);
    assert(run(s, 0, CharClass::SymbolChar) == 0);
    assert(run(s, 0, CharClass::Digit) == 0);
}

/// An atom that reads back as itself: a symbol named by `symbol_name`, or a number that is
/// not negative.
pub open spec fn atom(e: ExprView) -> bool {
    match e {
        ExprView::Value(ValView::Symbol(t)) => symbol_name(t),
        ExprView::Value(ValView::Number(n)) => n >= 0,
        _ => false,
    }
}

/// An atom is read back at position `i` when its text is there, followed by a space or
/// a closing parenthesis.
proof fn lemma_atom_at(s: Seq<char>, i: int, e: ExprView)
    requires
        atom(e),
        0 <= i,
        i + display_expr(e).len() < s.len(),
        s.subrange(i, i + display_expr(e).len()) == display_expr(e),
        s[i + display_expr(e).len()] == ' ' || s[i + display_expr(e).len()] == ')',
    ensures
        p_expr(s, i) == Some((display_expr(e).len(), e)),
{
    let t = display_expr(e);
    let n = t.len() as int;
    lemma_at_in(s, i, t);
    match e {
        ExprView::Value(ValView::Symbol(name)) => {
            assert(t == name);
            assert(s[i] == name[0]);
            assert(!crate::reader::is_special(s[i]));
            assert(run(s, i, CharClass::Space) == 0);
            assert(run(s, i, CharClass::Digit) == 0);
            assert forall|p: int| i <= p < i + n implies crate::reader::in_class(
                CharClass::SymbolChar,
                #[trigger] s[p],
            ) by {
                assert(s[p] == name[p - i]);
            }
            lemma_run_exact(s, i, n, CharClass::SymbolChar);
        },
        ExprView::Value(ValView::Number(v)) => {
            lemma_nat_decimal_digits(v as nat);
            assert(t == nat_decimal(v as nat));
            assert(s[i] == t[0]);
            assert(run(s, i, CharClass::Space) == 0);
            assert forall|p: int| i <= p < i + n implies crate::reader::in_class(
                CharClass::Digit,
                #[trigger] s[p],
            ) by {
                assert(s[p] == t[p - i]);
            }
            lemma_run_exact(s, i, n, CharClass::Digit);
            assert(s.subrange(i, i + n) == t);
        },
        _ => {},
    }
}

proof fn lemma_nothing_at_close(s: Seq<char>, q: int)
    requires
        0 <= q < s.len(),
        s[q] == ')',
    ensures
        p_expr(s, q) is None,
{
    assert(run(s, q, CharClass::Space) == 0);
    assert(run(s, q, CharClass::SymbolChar) == 0);
    assert(run(s, q, CharClass::Digit) == 0);
}

proof fn lemma_display_front(es: Seq<ExprView>)
    requires
        es.len() >= 2,
    ensures
        display_exprs(es) == display_expr(es[0]) + seq![' '] + display_exprs(es.drop_first()),
    decreases es.len(),
{
    let df = es.drop_first();
    let dl = es.drop_last();
    if es.len() == 2 {
        assert(dl.len() == 1 && dl[0] == es[0]);
        assert(df.len() == 1 && df[0] == es[1]);
        assert(display_exprs(dl) == display_expr(es[0]));
        assert(display_exprs(df) == display_expr(es[1]));
    } else {
        lemma_display_front(dl);
        assert(dl.drop_first() =~= df.drop_last());
        assert(df.last() == es.last());
        assert(display_exprs(df) == display_exprs(df.drop_last()) + seq![' '] + display_expr(
            df.last(),
        ));
        assert(display_exprs(es) == display_exprs(dl) + seq![' '] + display_expr(es.last()));
        assert(display_exprs(es) =~= display_expr(es[0]) + seq![' '] + display_exprs(df));
    }
}

#[verifier::rlimit(30)]
proof fn lemma_items_rest_atoms(s: Seq<char>, q: int, es: Seq<ExprView>)
    requires
        es.len() >= 1,
        forall|k: int| 0 <= k < es.len() ==> atom(#[trigger] es[k]),
        0 <= q,
        q + 1 + display_exprs(es).len() < s.len(),
        s.subrange(q, q + 1 + display_exprs(es).len()) == seq![' '] + display_exprs(es),
        s[q + 1 + display_exprs(es).len()] == ')',
    ensures
        p_items_rest(s, q) == Some(((1 + display_exprs(es).len()) as nat, es)),
    decreases es.len(),
{
    let w = seq![' '] + display_exprs(es);
    let e0 = es[0];
    let t0 = display_expr(e0);
    assert(atom(e0));
    lemma_at_in(s, q, w);
    assert(s[q] == w[0]);
    let e: int = q + 1 + t0.len();
    assert(t0.len() > 0) by {
        if e0 is Value && e0->Value_0 is Number {
            lemma_nat_decimal_digits(e0->Value_0->Number_0 as nat);
        }
    }
    if es.len() >= 2 {
        lemma_display_front(es);
    }
    assert(forall|k: int| 0 <= k < t0.len() ==> #[trigger] w[1 + k] == t0[k]) by {
        if es.len() == 1 {
            assert(display_exprs(es) == t0);
        }
    }
    assert(s[q + 1] == t0[0]) by {
        assert(w[1 + 0int] == t0[0]);
    }
    assert(!crate::reader::in_class(CharClass::Space, t0[0])) by {
        match e0 {
            ExprView::Value(ValView::Symbol(name)) => {
                assert(t0 == name);
                assert(crate::reader::in_class(CharClass::SymbolChar, name[0]));
            },
            ExprView::Value(ValView::Number(v)) => {
                lemma_nat_decimal_digits(v as nat);
                assert(t0 == nat_decimal(v as nat));
                assert(crate::reader::in_class(CharClass::Digit, t0[0]));
            },
            _ => {},
        }
    }
    assert(run(s, q + 1, CharClass::Space) == 0);
    assert(run(s, q, CharClass::Space) == 1);
    if es.len() == 1 {
        assert(display_exprs(es) == t0);
        assert(s.subrange(q + 1, e) =~= t0) by {
            assert forall|k: int| 0 <= k < t0.len() implies s.subrange(q + 1, e)[k] == t0[k] by {
                assert(w[1 + k] == t0[k]);
            }
        }
        lemma_atom_at(s, q + 1, e0);
        lemma_nothing_at_close(s, e);
        assert(p_items_rest(s, e) == Some((0nat, Seq::<ExprView>::empty())));
        assert(es =~= seq![e0]);
    } else {
        let rest = es.drop_first();
        lemma_display_front(es);
        let wr = seq![' '] + display_exprs(rest);
        assert(w =~= seq![' '] + t0 + wr);
        assert(s.subrange(q + 1, e) =~= t0) by {
            assert forall|k: int| 0 <= k < t0.len() implies s.subrange(q + 1, e)[k] == t0[k] by {
                assert(w[1 + k] == t0[k]);
            }
        }
        assert(s[e] == ' ') by {
            assert(w[1 + t0.len() as int] == ' ');
        }
        lemma_atom_at(s, q + 1, e0);
        assert(s.subrange(e, e + wr.len()) =~= wr) by {
            assert forall|k: int| 0 <= k < wr.len() implies s.subrange(e, e + wr.len())[k]
                == wr[k] by {
                assert(w[1 + t0.len() + k] == wr[k]);
            }
        }
        assert(s[e + wr.len()] == ')');
        assert forall|k: int| 0 <= k < rest.len() implies atom(#[trigger] rest[k]) by {
            assert(rest[k] == es[k + 1]);
        }
        lemma_items_rest_atoms(s, e, rest);
        assert(es =~= seq![e0] + rest);
    }
}

#[verifier::rlimit(30)]
proof fn lemma_items_atoms(s: Seq<char>, k: int, es: Seq<ExprView>)
    requires
        forall|i: int| 0 <= i < es.len() ==> atom(#[trigger] es[i]),
        0 <= k,
        k + display_exprs(es).len() < s.len(),
        s.subrange(k, k + display_exprs(es).len()) == display_exprs(es),
        s[k + display_exprs(es).len()] == ')',
    ensures
        p_items(s, k) == Some((display_exprs(es).len(), es)),
{
    if es.len() == 0 {
        lemma_nothing_at_close(s, k);
        assert(es =~= Seq::<ExprView>::empty());
    } else {
        let e0 = es[0];
        let t0 = display_expr(e0);
        assert(atom(e0));
        lemma_at_in(s, k, display_exprs(es));
        let e: int = k + t0.len();
        if es.len() == 1 {
            assert(display_exprs(es) == t0);
            assert(s.subrange(k, e) =~= t0);
            lemma_atom_at(s, k, e0);
            lemma_nothing_at_close(s, e);
            assert(p_items_rest(s, e) == Some((0nat, Seq::<ExprView>::empty())));
            assert(es =~= seq![e0]);
        } else {
            let rest = es.drop_first();
            lemma_display_front(es);
            let wrest = seq![' '] + display_exprs(rest);
            assert(display_exprs(es) =~= t0 + wrest);
            assert(s.subrange(k, e) =~= t0) by {
                assert forall|i: int| 0 <= i < t0.len() implies s.subrange(k, e)[i] == t0[i] by {
                    assert(display_exprs(es)[i] == t0[i]);
                }
            }
            assert(s[e] == ' ') by {
                assert(display_exprs(es)[t0.len() as int] == ' ');
            }
            lemma_atom_at(s, k, e0);
            assert(s.subrange(e, e + wrest.len()) =~= wrest) by {
                assert forall|i: int| 0 <= i < wrest.len() implies s.subrange(e, e + wrest.len())[i]
                    == wrest[i] by {
                    assert(display_exprs(es)[t0.len() + i] == wrest[i]);
                }
            }
            assert forall|i: int| 0 <= i < rest.len() implies atom(#[trigger] rest[i]) by {
                assert(rest[i] == es[i + 1]);
            }
            lemma_items_rest_atoms(s, e, rest);
            assert(es =~= seq![e0] + rest);
        }
    }
}

/// Reading the printed form of a list of atoms (symbols and numbers that are not negative)
/// gives the list back and consumes all of it.
#[verifier::spinoff_prover]
#[verifier::rlimit(40)]
pub proof fn law_atom_list_reads_back(es: Seq<ExprView>)
    requires
        forall|k: int| 0 <= k < es.len() ==> atom(#[trigger] es[k]),
    ensures
        crate::print_spec(ExprView::List(es)) == seq!['('] + display_exprs(es) + seq![')'],
        p_expr(seq!['('] + display_exprs(es) + seq![')'], 0) == Some(
            ((display_exprs(es).len() + 2) as nat, ExprView::List(es)),
        ),
{
    let s = seq!['('] + display_exprs(es) + seq![')'];
    let c: int = display_exprs(es).len() as int + 1;
    assert(s[0] == '(');
    assert(s[c] == ')');
    assert(run(s, 0, CharClass::Space) == 0);
    assert(run(s, c, CharClass::Space) == 0);
    assert(s.subrange(1, c) =~= display_exprs(es));
    lemma_items_atoms(s, 1, es);
    assert(ws(s, 0) == 0);
    assert(ws(s, c) == 0);
    assert(p_seq(s, 0, '(', ')') == Some(((display_exprs(es).len() + 2) as nat, es)));
    assert(p_alt(s, 0) == Some(((display_exprs(es).len() + 2) as nat, ExprView::List(es))));
}

// ------------------------------------------------------------------------------------------
// Equality of expressions
// ------------------------------------------------------------------------------------------

/// Every map inside the expression binds each of its keys once, as every `MalMap` does.
pub open spec fn maps_unique(e: ExprView) -> bool
    decreases e,
{
    match e {
        ExprView::Value(_) => true,
        ExprView::List(xs) => all_maps_unique(xs),
        ExprView::Vector(xs) => all_maps_unique(xs),
        ExprView::HashMap(ps) => keys_unique(ps) && values_maps_unique(ps),
        ExprView::Quoted(_, x) => maps_unique(*x),
    }
}

/// `maps_unique` holds of every element.
pub open spec fn all_maps_unique(xs: Seq<ExprView>) -> bool
    decreases xs,
{
    xs.len() == 0 || (all_maps_unique(xs.drop_last()) && maps_unique(xs.last()))
}

/// `maps_unique` holds of every value bound.
pub open spec fn values_maps_unique(ps: Seq<(ValView, ExprView)>) -> bool
    decreases ps,
{
    ps.len() == 0 || (values_maps_unique(ps.drop_last()) && maps_unique(ps.last().1))
}

proof fn lemma_exprs_refl(xs: Seq<ExprView>)
    requires
        all_maps_unique(xs),
    ensures
        exprs_equiv(xs, xs),
    decreases xs,
{
    if xs.len() > 0 {
        lemma_exprs_refl(xs.drop_last());
        law_equality_is_reflexive(xs.last());
    }
}

proof fn lemma_entries_refl(ps: Seq<(ValView, ExprView)>, qs: Seq<(ValView, ExprView)>)
    requires
        keys_unique(qs),
        ps.len() <= qs.len(),
        ps =~= qs.subrange(0, ps.len() as int),
        values_maps_unique(ps),
    ensures
        entries_found(ps, qs),
    decreases ps,
{
    if ps.len() > 0 {
        let n = ps.len() - 1;
        let pd = ps.drop_last();
        assert(pd =~= qs.subrange(0, n));
        lemma_entries_refl(pd, qs);
        assert(ps.last() == qs[n]);
        let ki = key_index(qs, qs[n].0);
        assert(ki is Some);
        assert(ki->0 == n);
        law_equality_is_reflexive(ps.last().1);
    }
}

/// Every expression is equal to itself (its maps binding each key once).
pub proof fn law_equality_is_reflexive(e: ExprView)
    requires
        maps_unique(e),
    ensures
        expr_equiv(e, e),
    decreases e,
{
    match e {
        ExprView::Value(_) => {},
        ExprView::List(xs) => {
            lemma_exprs_refl(xs);
        },
        ExprView::Vector(xs) => {
            lemma_exprs_refl(xs);
        },
        ExprView::HashMap(ps) => {
            lemma_entries_refl(ps, ps);
        },
        ExprView::Quoted(_, x) => {
            law_equality_is_reflexive(*x);
        },
    }
}

/// Two maps that hold the same entries compare equal, whatever the order of the entries
/// (the order in which their keys were inserted).
pub proof fn law_map_equality_ignores_order(
    ps: Seq<(ValView, ExprView)>,
    qs: Seq<(ValView, ExprView)>,
)
    requires
        keys_unique(ps),
        keys_unique(qs),
        values_maps_unique(ps),
        ps.len() == qs.len(),
        forall|i: int| 0 <= i < ps.len() ==> exists|j: int| 0 <= j < qs.len() && qs[j] == #[trigger] ps[i],
    ensures
        expr_equiv(ExprView::HashMap(ps), ExprView::HashMap(qs)),
{
    lemma_values_unique_each(ps);
    assert forall|i: int|
        #![trigger ps[i]]
        0 <= i < ps.len() implies map_lookup(qs, ps[i].0) is Some && expr_equiv(
            ps[i].1,
            map_lookup(qs, ps[i].0)->0,
        ) by {
        let j = choose|j: int| 0 <= j < qs.len() && qs[j] == ps[i];
        let ki = key_index(qs, ps[i].0);
        assert(qs[j].0 == ps[i].0);
        assert(ki is Some);
        assert(ki->0 == j);
        assert(maps_unique(ps[i].1));
        law_equality_is_reflexive(ps[i].1);
    }
    crate::types::lemma_entries_found(ps, qs);
}

proof fn lemma_values_unique_each(ps: Seq<(ValView, ExprView)>)
    requires
        values_maps_unique(ps),
    ensures
        forall|i: int| 0 <= i < ps.len() ==> maps_unique(#[trigger] ps[i].1),
    decreases ps,
{
    if ps.len() > 0 {
        let pd = ps.drop_last();
        lemma_values_unique_each(pd);
        assert forall|i: int| 0 <= i < ps.len() implies maps_unique(#[trigger] ps[i].1) by {
            if i < ps.len() - 1 {
                assert(pd[i] == ps[i]);
            }
        }
    }
}

proof fn lemma_value_args(env: EnvView, es: Seq<ExprView>, n: int)
    requires
        1 <= n <= es.len(),
        forall|i: int| 1 <= i < es.len() ==> (#[trigger] es[i]) is Value,
    ensures
        spec_eval_args(env, es, n) == Some(
            Ok::<Seq<ExprView>, crate::types::ErrorView>(es.subrange(1, n)),
        ),
    decreases n,
{
    if n > 1 {
        lemma_value_args(env, es, n - 1);
        let v = es[n - 1]->Value_0;
        assert(es[n - 1] == ExprView::Value(v));
        assert(spec_eval(env, es[n - 1]) == Some(Ok::<ExprView, crate::types::ErrorView>(es[n - 1])));
        assert(es.subrange(1, n) =~= es.subrange(1, n - 1).push(es[n - 1]));
    } else {
        assert(es.subrange(1, n) =~= Seq::<ExprView>::empty());
    }
}

/// In a fresh environment, `(+ x1 ... xn)` over numbers evaluates to their sum, where
/// every partial sum fits in an `i64`.
#[verifier::rlimit(30)]
pub proof fn law_eval_sum(xs: Seq<i64>)
    requires
        xs.len() >= 1,
        sums_fit(xs),
    ensures
        spec_eval(
            fresh_env(),
            ExprView::List(seq![ExprView::Value(ValView::Symbol(op_text(BuiltIn::Add)))] + numbers(xs)),
        ) == Some(
            Ok::<ExprView, crate::types::ErrorView>(ExprView::Value(ValView::Number(sum(xs) as i64))),
        ),
{
    let es = seq![ExprView::Value(ValView::Symbol(op_text(BuiltIn::Add)))] + numbers(xs);
    law_operator_symbols_are_functions(BuiltIn::Add);
    assert forall|i: int| 1 <= i < es.len() implies (#[trigger] es[i]) is Value by {
        assert(es[i] == numbers(xs)[i - 1]);
    }
    lemma_value_args(fresh_env(), es, es.len() as int);
    assert(es.subrange(1, es.len() as int) =~= numbers(xs));
    law_add_sums(xs);
    assert(es[0] == ExprView::Value(ValView::Symbol(op_text(BuiltIn::Add))));
    assert(spec_eval(fresh_env(), es[0]) == Some(Ok::<ExprView, crate::types::ErrorView>(es[0])));
}


// ------------------------------------------------------------------------------------------
// Arithmetic on numbers
// ------------------------------------------------------------------------------------------

/// A number expression.
pub open spec fn num(n: i64) -> ExprView {
    ExprView::Value(ValView::Number(n))
}

/// The distance of an integer from zero.
pub open spec fn magnitude(x: int) -> int {
    if x < 0 {
        -x
    } else {
        x
    }
}

/// `+`, `-` and `*` on two numbers give the integer sum, difference and product where it
/// fits in an `i64`, and panic where it does not.
pub proof fn law_arithmetic_on_numbers(a: i64, b: i64)
    ensures
        i64::MIN <= a + b <= i64::MAX ==> (spec_binop(BuiltIn::Add, num(a), num(b)) matches Some(
            Ok(ExprView::Value(ValView::Number(n))),
        ) && n == a + b),
        i64::MIN <= a - b <= i64::MAX ==> (spec_binop(BuiltIn::Sub, num(a), num(b)) matches Some(
            Ok(ExprView::Value(ValView::Number(n))),
        ) && n == a - b),
        i64::MIN <= a * b <= i64::MAX ==> (spec_binop(BuiltIn::Mul, num(a), num(b)) matches Some(
            Ok(ExprView::Value(ValView::Number(n))),
        ) && n == a * b),
        !(i64::MIN <= a + b <= i64::MAX) ==> spec_binop(BuiltIn::Add, num(a), num(b)) is None,
        !(i64::MIN <= a - b <= i64::MAX) ==> spec_binop(BuiltIn::Sub, num(a), num(b)) is None,
        !(i64::MIN <= a * b <= i64::MAX) ==> spec_binop(BuiltIn::Mul, num(a), num(b)) is None,
{
}

proof fn lemma_quotient(x: int, d: int)
    requires
        x >= 0,
        d > 0,
    ensures
        0 <= x - (x / d) * d < d,
{
    vstd::arithmetic::div_mod::lemma_fundamental_div_mod(x, d);
    vstd::arithmetic::div_mod::lemma_mod_pos_bound(x, d);
    vstd::arithmetic::mul::lemma_mul_is_commutative(d, x / d);
}

/// The remainder that the quotient `q` leaves: smaller than `b` in size, and zero or of the
/// sign of `a`.
pub open spec fn truncated_quotient(a: int, b: int, q: int) -> bool {
    magnitude(a - q * b) < magnitude(b) && (a - q * b == 0 || (a - q * b < 0 <==> a < 0))
}

proof fn lemma_checked_div(a: i64, b: i64)
    ensures
        b == 0 ==> a.checked_div(b) is None,
        a == i64::MIN && b == -1 ==> a.checked_div(b) is None,
        b != 0 && !(a == i64::MIN && b == -1) ==> (a.checked_div(b) matches Some(q)
            && truncated_quotient(a as int, b as int, q as int)),
{
    let x = a as int;
    let d = b as int;
    if a == i64::MIN && b == -1 {
        assert(x * -1 == 0x8000_0000_0000_0000int);
        assert(d * -1 == 1);
        assert(0x8000_0000_0000_0000int / 1int == 0x8000_0000_0000_0000int);
        assert(a.checked_div(b) is None);
    } else if b != 0 {
        if x == 0 {
            assert(a.checked_div(b) == Some(0i64));
            assert(truncated_quotient(x, d, 0));
        } else if x > 0 && d > 0 {
            lemma_quotient(x, d);
            let q = x / d;
            assert(q <= x) by (nonlinear_arith)
                requires
                    x > 0,
                    d > 0,
                    0 <= x - q * d,
            ;
            assert(q >= 0) by (nonlinear_arith)
                requires
                    x > 0,
                    d > 0,
                    x - q * d < d,
            ;
            assert(a.checked_div(b) == Some(q as i64));
            assert(0 <= x - q * d < d);
            assert(truncated_quotient(x, d, q));
        } else if x < 0 && d < 0 {
            lemma_quotient(-x, -d);
            let q = (-x) / (-d);
            assert((-x) - q * (-d) == -(x - q * d)) by (nonlinear_arith);
            assert(q <= -x) by (nonlinear_arith)
                requires
                    -x > 0,
                    -d > 0,
                    0 <= (-x) - q * (-d),
            ;
            assert(q >= 0) by (nonlinear_arith)
                requires
                    -x > 0,
                    -d > 0,
                    (-x) - q * (-d) < -d,
            ;
            assert(q <= i64::MAX) by {
                if q > i64::MAX {
                    assert(x == i64::MIN);
                    assert(q == -x);
                    assert((-x) - q * (-d) == (-x) * (1 + d)) by (nonlinear_arith)
                        requires
                            q == -x,
                    ;
                    assert(d == -1) by (nonlinear_arith)
                        requires
                            -x > 0,
                            d < 0,
                            0 <= (-x) * (1 + d),
                    ;
                }
            }
            assert(a.checked_div(b) == Some(q as i64));
            assert(d < x - q * d <= 0);
            assert(truncated_quotient(x, d, q));
        } else if x < 0 {
            lemma_quotient(-x, d);
            let q = (-x) / d;
            assert(x - (q * -1) * d == -((-x) - q * d)) by (nonlinear_arith);
            assert(q <= -x) by (nonlinear_arith)
                requires
                    -x > 0,
                    d > 0,
                    0 <= (-x) - q * d,
            ;
            assert(q >= 0) by (nonlinear_arith)
                requires
                    -x > 0,
                    d > 0,
                    (-x) - q * d < d,
            ;
            assert(a.checked_div(b) == Some((q * -1) as i64));
            assert(-d < x - (q * -1) * d <= 0);
            assert(truncated_quotient(x, d, q * -1));
        } else {
            lemma_quotient(x, -d);
            let q = x / (-d);
            assert(x - (q * -1) * d == x - q * (-d)) by (nonlinear_arith);
            assert(q <= x) by (nonlinear_arith)
                requires
                    x > 0,
                    -d > 0,
                    0 <= x - q * (-d),
            ;
            assert(q >= 0) by (nonlinear_arith)
                requires
                    x > 0,
                    -d > 0,
                    x - q * (-d) < -d,
            ;
            assert(a.checked_div(b) == Some((q * -1) as i64));
            assert(0 <= x - (q * -1) * d < -d);
            assert(truncated_quotient(x, d, q * -1));
        }
    }
}


/// `/` on two numbers rounds toward zero: the quotient `q` leaves a remainder `a - q * b`
/// smaller than `b` in size and zero or of the sign of `a`. Dividing by zero panics, and
/// so does the one quotient that does not fit, `i64::MIN / -1`.
pub proof fn law_division_truncates(a: i64, b: i64)
    ensures
        b == 0 ==> spec_binop(BuiltIn::Div, num(a), num(b)) is None,
        a == i64::MIN && b == -1 ==> spec_binop(BuiltIn::Div, num(a), num(b)) is None,
        b != 0 && !(a == i64::MIN && b == -1) ==> (spec_binop(BuiltIn::Div, num(a), num(b))
            matches Some(Ok(ExprView::Value(ValView::Number(q)))) && truncated_quotient(
            a as int,
            b as int,
            q as int,
        )),
{
    lemma_checked_div(a, b);
}

// ------------------------------------------------------------------------------------------
// Equality of values, printing of quoted forms, map keys, evaluation of the head
// ------------------------------------------------------------------------------------------

/// Two values are equal exactly when they are the same value: values of different kinds
/// (a string and a symbol with the same text, say) are never equal.
pub proof fn law_values_equal_when_same(x: ValView, y: ValView)
    ensures
        expr_equiv(ExprView::Value(x), ExprView::Value(y)) == (x == y),
{
}

/// A quoted form prints as its quote word in parentheses, in front of the printed form of
/// what it quotes: `(quote x)`, `(quasiquote x)`, `(unquote x)`, `(splice-unquote x)`.
pub proof fn law_print_quoted(k: QuoteKind, x: ExprView)
    ensures
        k == QuoteKind::Quote ==> crate::print_spec(ExprView::Quoted(k, Box::new(x)))
            == "(quote "@ + crate::print_spec(x) + ")"@,
        k == QuoteKind::Quasi ==> crate::print_spec(ExprView::Quoted(k, Box::new(x)))
            == "(quasiquote "@ + crate::print_spec(x) + ")"@,
        k == QuoteKind::Unquote ==> crate::print_spec(ExprView::Quoted(k, Box::new(x)))
            == "(unquote "@ + crate::print_spec(x) + ")"@,
        k == QuoteKind::SpliceUnquote ==> crate::print_spec(ExprView::Quoted(k, Box::new(x)))
            == "(splice-unquote "@ + crate::print_spec(x) + ")"@,
{
    reveal_strlit(")");
    assert(seq![')'] =~= ")"@);
}

/// A map key may be a keyword: where `:` is followed by symbol characters and no number,
/// symbol or string starts, the key read is the keyword of those characters.
pub proof fn law_keyword_keys(s: Seq<char>, i: int)
    requires
        0 <= i,
        at(s, i, ':'),
        run(s, i + 1, CharClass::SymbolChar) > 0,
    ensures
        p_key(s, i) == Some(
            (
                (1 + run(s, i + 1, CharClass::SymbolChar)) as nat,
                ValView::Keyword(s.subrange(i + 1, i + 1 + run(s, i + 1, CharClass::SymbolChar))),
            ),
        ),
{
    assert(ws(s, i) == 0);
    assert(run(s, i, CharClass::Digit) == 0);
    assert(run(s, i, CharClass::SymbolChar) == 0);
}

/// `{:t 1}` reads as the map that binds the keyword `t` to the number 1, for every
/// keyword text `t`.
#[verifier::rlimit(40)]
pub proof fn law_map_with_keyword_key(t: Seq<char>)
    requires
        symbol_text(t),
    ensures
        p_expr(seq!['{', ':'] + t + seq![' ', '1', '}'], 0) == Some(
            (
                (t.len() + 5) as nat,
                ExprView::HashMap(seq![(ValView::Keyword(t), num(1))]),
            ),
        ),
{
    let s = seq!['{', ':'] + t + seq![' ', '1', '}'];
    let n = t.len() as int;
    assert forall|p: int| 2 <= p < 2 + n implies crate::reader::in_class(
        CharClass::SymbolChar,
        #[trigger] s[p],
    ) by {
        assert(s[p] == t[p - 2]);
    }
    lemma_run_exact(s, 2, n, CharClass::SymbolChar);
    assert(s[0] == '{');
    assert(s[1] == ':');
    assert(s[n + 2] == ' ');
    assert(s[n + 3] == '1');
    assert(s[n + 4] == '}');
    assert(ws(s, 1) == 0);
    law_keyword_keys(s, 1);
    assert(s.subrange(2, 2 + n) =~= t);
    assert(p_key(s, 1) == Some(((1 + n) as nat, ValView::Keyword(t))));
    // the value
    assert(run(s, n + 2, CharClass::Space) == 1);
    assert(ws(s, n + 2) == 1);
    assert(run(s, n + 4, CharClass::Digit) == 0);
    assert(run(s, n + 3, CharClass::Digit) == 1);
    assert(s.subrange(n + 3, n + 4) =~= seq!['1']);
    assert(digits_value(seq!['1']) == 1) by {
        lemma_nat_decimal_digits(1);
        assert(nat_decimal(1) =~= seq!['1']);
    }
    assert(ws(s, n + 3) == 0);
    assert(p_number(s, n + 3) == Some((1nat, ValView::Number(1))));
    assert(run(s, n + 3, CharClass::Space) == 0);
    assert(p_seq(s, n + 3, '(', ')') is None);
    assert(p_seq(s, n + 3, '[', ']') is None);
    assert(p_map(s, n + 3) is None);
    assert(p_alt(s, n + 3) == Some((1nat, num(1))));
    assert(p_expr(s, n + 3) == Some((1nat, num(1))));
    assert(run(s, n + 4, CharClass::Space) == 0);
    assert(ws(s, n + 4) == 0);
    assert(p_pair(s, 1) == Some(((n + 3) as nat, (ValView::Keyword(t), num(1)))));
    // nothing more before `}`
    assert(run(s, n + 4, CharClass::SymbolChar) == 0);
    assert(p_key(s, n + 4) is None);
    assert(p_pair(s, n + 4) is None);
    assert(p_pairs_rest(s, n + 4) == Some((0nat, Seq::<(ValView, ExprView)>::empty())));
    assert(p_pairs(s, 1) == Some(((n + 3) as nat, seq![(ValView::Keyword(t), num(1))])));
    let ps = seq![(ValView::Keyword(t), num(1))];
    assert(build_map(ps) == ps) by {
        assert(ps.drop_last() =~= Seq::<(ValView, ExprView)>::empty());
        assert(build_map(Seq::<(ValView, ExprView)>::empty()) == Seq::<(ValView, ExprView)>::empty());
        assert(key_index(Seq::<(ValView, ExprView)>::empty(), ValView::Keyword(t)) is None);
        assert(Seq::<(ValView, ExprView)>::empty().push((ValView::Keyword(t), num(1))) =~= ps);
    }
    assert(run(s, 0, CharClass::Space) == 0);
    assert(ws(s, 0) == 0);
    assert(p_seq(s, 0, '(', ')') is None);
    assert(p_seq(s, 0, '[', ']') is None);
    assert(p_map(s, 0) == Some(((n + 5) as nat, ps)));
}

proof fn lemma_args_ignore_head(env: EnvView, es: Seq<ExprView>, fs: Seq<ExprView>, n: int)
    requires
        es.len() == fs.len(),
        forall|i: int| 1 <= i < es.len() ==> es[i] == fs[i],
    ensures
        spec_eval_args(env, es, n) == spec_eval_args(env, fs, n),
    decreases n,
{
    if 1 < n <= es.len() {
        lemma_args_ignore_head(env, es, fs, n - 1);
        assert(es[n - 1] == fs[n - 1]);
    }
}

/// The head of an application is evaluated before it is turned into a primitive: an
/// application gives what it gives with its head replaced by the head's value.
pub proof fn law_head_is_evaluated(env: EnvView, h: ExprView, v: ExprView, args: Seq<ExprView>)
    requires
        args.len() >= 1,
        spec_eval(env, h) == Some(Ok::<ExprView, crate::types::ErrorView>(v)),
    ensures
        spec_eval(env, ExprView::List(seq![h] + args)) == spec_eval(
            env,
            ExprView::List(seq![v] + args),
        ),
{
    law_evaluation_gives_values(env, h);
    assert(spec_eval(env, v) == Some(Ok::<ExprView, crate::types::ErrorView>(v)));
    let es = seq![h] + args;
    let fs = seq![v] + args;
    assert(es[0] == h);
    assert(fs[0] == v);
    assert forall|i: int| 1 <= i < es.len() implies es[i] == fs[i] by {
        assert(es[i] == args[i - 1]);
        assert(fs[i] == args[i - 1]);
    }
    lemma_args_ignore_head(env, es, fs, es.len() as int);
}

} // verus!
