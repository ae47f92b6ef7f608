//! The reader: text to expressions.
//!
//! The grammar is given by spec functions over the characters of the input. Each parser
//! takes a position and gives back how many characters it consumed and what it read, or
//! `None` where it does not match; the executable parsers below follow them exactly.

use vstd::prelude::*;

use crate::types::{
    exprs_view, fails_with, lemma_expr_view, map_insert, ErrorView, Expr, ExprView, MalContainer,
    MalError, MalMap, MalResult, MalVal, QuoteKind, ValView,
};

verus! {

broadcast use lemma_expr_view;

// ------------------------------------------------------------------------------------------
// Character classes
// ------------------------------------------------------------------------------------------

/// Characters with the Unicode `White_Space` property (what `char::is_whitespace` tests).
pub open spec fn is_white_space(c: char) -> bool {
    let u = c as u32;
    ||| 0x9 <= u <= 0xd
    ||| u == 0x20
    ||| u == 0x85
    ||| u == 0xa0
    ||| u == 0x1680
    ||| 0x2000 <= u <= 0x200a
    ||| u == 0x2028
    ||| u == 0x2029
    ||| u == 0x202f
    ||| u == 0x205f
    ||| u == 0x3000
}

/// The characters that end a symbol or a keyword.
pub open spec fn is_special(c: char) -> bool {
    ||| c == '['
    ||| c == ']'
    ||| c == ':'
    ||| c == '('
    ||| c == ')'
    ||| c == '{'
    ||| c == '}'
    ||| c == '~'
    ||| c == '`'
    ||| c == '\''
    ||| c == '"'
    ||| c == ','
}

/// The classes of characters that the reader skips or collects in runs.
#[derive(Clone, Copy)]
pub enum CharClass {
    /// `,`
    Comma,
    /// space, tab, carriage return, line feed
    Space,
    /// anything but white space and the special characters
    SymbolChar,
    /// `0` to `9`
    Digit,
    /// anything but a line feed
    NotNewline,
}

pub open spec fn in_class(cls: CharClass, c: char) -> bool {
    match cls {
        CharClass::Comma => c == ',',
        CharClass::Space => c == ' ' || c == '\t' || c == '\r' || c == '\n',
        CharClass::SymbolChar => !is_white_space(c) && !is_special(c),
        CharClass::Digit => '0' <= c <= '9',
        CharClass::NotNewline => c != '\n',
    }
}

/// How many characters from position `i` on belong to `cls`, up to the first that does not.
pub open spec fn run(s: Seq<char>, i: int, cls: CharClass) -> nat
    decreases s.len() - i,
{
    if 0 <= i < s.len() && in_class(cls, s[i]) {
        1 + run(s, i + 1, cls)
    } else {
        0
    }
}

/// The separator that the reader skips: a run of commas if there is a comma, else a run
/// (possibly empty) of spaces, tabs and line breaks.
pub open spec fn ws(s: Seq<char>, i: int) -> nat {
    if 0 <= i < s.len() && s[i] == ',' {
        run(s, i, CharClass::Comma)
    } else {
        run(s, i, CharClass::Space)
    }
}

/// How many characters are left from position `i` on.
pub open spec fn left(s: Seq<char>, i: int) -> nat {
    if i < s.len() {
        (s.len() - i) as nat
    } else {
        0
    }
}

/// The character `c` at position `i`.
pub open spec fn at(s: Seq<char>, i: int, c: char) -> bool {
    0 <= i < s.len() && s[i] == c
}

// ------------------------------------------------------------------------------------------
// Atoms
// ------------------------------------------------------------------------------------------

/// The value of a run of decimal digits.
pub open spec fn digits_value(ds: Seq<char>) -> nat
    decreases ds.len(),
{
    if ds.len() == 0 {
        0
    } else {
        digits_value(ds.drop_last()) * 10 + ((ds.last() as u32) - 48) as nat
    }
}

/// A symbol: separator, then a non-empty run of symbol characters.
pub open spec fn p_symbol(s: Seq<char>, i: int) -> Option<(nat, ValView)> {
    let w = ws(s, i);
    let j = i + w;
    let n = run(s, j, CharClass::SymbolChar);
    if n > 0 {
        Some(((w + n) as nat, ValView::Symbol(s.subrange(j, j + n))))
    } else {
        None
    }
}

/// A keyword: separator, `:`, then a non-empty run of symbol characters.
pub open spec fn p_keyword(s: Seq<char>, i: int) -> Option<(nat, ValView)> {
    let w = ws(s, i);
    let j = i + w;
    let n = run(s, j + 1, CharClass::SymbolChar);
    if at(s, j, ':') && n > 0 {
        Some(((w + 1 + n) as nat, ValView::Keyword(s.subrange(j + 1, j + 1 + n))))
    } else {
        None
    }
}

/// A number: separator, then a non-empty run of digits whose value fits in an `i64`.
pub open spec fn p_number(s: Seq<char>, i: int) -> Option<(nat, ValView)> {
    let w = ws(s, i);
    let j = i + w;
    let n = run(s, j, CharClass::Digit);
    let v = digits_value(s.subrange(j, j + n));
    if n > 0 && v <= i64::MAX {
        Some(((w + n) as nat, ValView::Number(v as i64)))
    } else {
        None
    }
}

/// What the character after a backslash in a string stands for: `\\` stays two
/// backslashes, `\"` stays a backslash and a quote, `\n` is a line feed and `\t` a tab.
pub open spec fn escape(c: char) -> Option<Seq<char>> {
    if c == '\\' {
        Some(seq!['\\', '\\'])
    } else if c == '"' {
        Some(seq!['\\', '"'])
    } else if c == 'n' {
        Some(seq!['\n'])
    } else if c == 't' {
        Some(seq!['\t'])
    } else {
        None
    }
}

/// The body of a string from position `i` to its closing quote, which it consumes: other
/// characters stand for themselves, a backslash starts an escape (see `escape`).
pub open spec fn string_body(s: Seq<char>, i: int) -> Option<(nat, Seq<char>)>
    decreases s.len() - i,
{
    if !(0 <= i < s.len()) {
        None
    } else if s[i] == '"' {
        Some((1, seq![]))
    } else if s[i] == '\\' {
        if i + 1 < s.len() && escape(s[i + 1]) is Some {
            match string_body(s, i + 2) {
                Some((n, t)) => Some(((n + 2) as nat, escape(s[i + 1])->0 + t)),
                None => None,
            }
        } else {
            None
        }
    } else {
        match string_body(s, i + 1) {
            Some((n, t)) => Some(((n + 1) as nat, seq![s[i]] + t)),
            None => None,
        }
    }
}

/// A string: `"`, then its body (no separator is skipped before it).
pub open spec fn p_string(s: Seq<char>, i: int) -> Option<(nat, ValView)> {
    if at(s, i, '"') {
        match string_body(s, i + 1) {
            Some((n, t)) => Some(((n + 1) as nat, ValView::Str(t))),
            None => None,
        }
    } else {
        None
    }
}

/// A map key: the first of a number, a symbol, a string and a keyword that matches.
pub open spec fn p_key(s: Seq<char>, i: int) -> Option<(nat, ValView)> {
    match p_number(s, i) {
        Some(r) => Some(r),
        None => match p_symbol(s, i) {
            Some(r) => Some(r),
            None => match p_string(s, i) {
                Some(r) => Some(r),
                None => p_keyword(s, i),
            },
        },
    }
}

/// The pairs bound in order into a map: a later binding of a key replaces an earlier one.
pub open spec fn build_map(ps: Seq<(ValView, ExprView)>) -> Seq<(ValView, ExprView)>
    decreases ps.len(),
{
    if ps.len() == 0 {
        seq![]
    } else {
        map_insert(build_map(ps.drop_last()), ps.last().0, ps.last().1)
    }
}

// ------------------------------------------------------------------------------------------
// Expressions
// ------------------------------------------------------------------------------------------

/// An expression: a separator, then the first alternative that matches (see `p_alt`).
pub open spec fn p_expr(s: Seq<char>, i: int) -> Option<(nat, ExprView)>
    decreases left(s, i), 3nat,
{
    let w = ws(s, i);
    match p_alt(s, i + w) {
        Some((n, e)) => Some(((w + n) as nat, e)),
        None => None,
    }
}

/// The alternatives, tried in order: list, vector, map, number, symbol, keyword, string,
/// and the quoted forms `` `x ``, `'x`, `~@x`, `~x`.
pub open spec fn p_alt(s: Seq<char>, j: int) -> Option<(nat, ExprView)>
    decreases left(s, j), 2nat,
{
    match p_seq(s, j, '(', ')') {
        Some((n, es)) => Some((n, ExprView::List(es))),
        None => match p_seq(s, j, '[', ']') {
            Some((n, es)) => Some((n, ExprView::Vector(es))),
            None => match p_map(s, j) {
                Some((n, ps)) => Some((n, ExprView::HashMap(ps))),
                None => match p_number(s, j) {
                    Some((n, v)) => Some((n, ExprView::Value(v))),
                    None => match p_symbol(s, j) {
                        Some((n, v)) => Some((n, ExprView::Value(v))),
                        None => match p_keyword(s, j) {
                            Some((n, v)) => Some((n, ExprView::Value(v))),
                            None => match p_string(s, j) {
                                Some((n, v)) => Some((n, ExprView::Value(v))),
                                None => p_quoted(s, j),
                            },
                        },
                    },
                },
            },
        },
    }
}

/// The quoted forms: `` ` `` quasiquotes, `'` quotes, `~@` splice-unquotes and `~`
/// unquotes the expression that follows. Where `~@` is not followed by an expression,
/// `~` unquotes what follows it (starting with the `@`).
pub open spec fn p_quoted(s: Seq<char>, j: int) -> Option<(nat, ExprView)>
    decreases left(s, j), 1nat,
{
    if at(s, j, '`') {
        match p_expr(s, j + 1) {
            Some((n, e)) => Some(((n + 1) as nat, ExprView::Quoted(QuoteKind::Quasi, Box::new(e)))),
            None => None,
        }
    } else if at(s, j, '\'') {
        match p_expr(s, j + 1) {
            Some((n, e)) => Some(((n + 1) as nat, ExprView::Quoted(QuoteKind::Quote, Box::new(e)))),
            None => None,
        }
    } else if at(s, j, '~') {
        let splice = if at(s, j + 1, '@') {
            match p_expr(s, j + 2) {
                Some((n, e)) => Some(
                    ((n + 2) as nat, ExprView::Quoted(QuoteKind::SpliceUnquote, Box::new(e))),
                ),
                None => None,
            }
        } else {
            None
        };
        match splice {
            Some(r) => Some(r),
            None => match p_expr(s, j + 1) {
                Some((n, e)) => Some(
                    ((n + 1) as nat, ExprView::Quoted(QuoteKind::Unquote, Box::new(e))),
                ),
                None => None,
            },
        }
    } else {
        None
    }
}

/// A bracketed sequence: separator, `open`, the items, separator, `close`.
pub open spec fn p_seq(s: Seq<char>, j: int, open: char, close: char) -> Option<
    (nat, Seq<ExprView>),
>
    decreases left(s, j), 1nat,
{
    let w1 = ws(s, j);
    let k = j + w1;
    if at(s, k, open) {
        match p_items(s, k + 1) {
            Some((m, es)) => {
                let q = k + 1 + m;
                let w2 = ws(s, q);
                if at(s, q + w2, close) {
                    Some(((w1 + 1 + m + w2 + 1) as nat, es))
                } else {
                    None
                }
            },
            None => None,
        }
    } else {
        None
    }
}

/// Items: none if no expression starts here, else an expression followed by the rest.
pub open spec fn p_items(s: Seq<char>, k: int) -> Option<(nat, Seq<ExprView>)>
    decreases left(s, k), 5nat,
{
    match p_expr(s, k) {
        None => Some((0, seq![])),
        Some((n, e)) => match p_items_rest(s, k + n) {
            Some((m, es)) => Some(((n + m) as nat, seq![e] + es)),
            None => None,
        },
    }
}

/// Further items: a separator and an expression, as long as one follows; a separator and
/// expression that consume nothing at all make the whole sequence fail. At the end of the
/// input there are none.
pub open spec fn p_items_rest(s: Seq<char>, q: int) -> Option<(nat, Seq<ExprView>)>
    decreases left(s, q), 4nat,
{
    if q >= s.len() {
        Some((0, seq![]))
    } else {
        let w = ws(s, q);
        match p_expr(s, q + w) {
            None => Some((0, seq![])),
            Some((n, e)) => if w + n == 0 {
                None
            } else {
                match p_items_rest(s, q + w + n) {
                    Some((m, es)) => Some(((w + n + m) as nat, seq![e] + es)),
                    None => None,
                }
            },
        }
    }
}

/// A map: `{`, a separator, the entries, `}`; the entries are bound in order.
pub open spec fn p_map(s: Seq<char>, j: int) -> Option<(nat, Seq<(ValView, ExprView)>)>
    decreases left(s, j), 1nat,
{
    if at(s, j, '{') {
        let w = ws(s, j + 1);
        match p_pairs(s, j + 1 + w) {
            Some((m, ps)) => if at(s, j + 1 + w + m, '}') {
                Some(((1 + w + m + 1) as nat, build_map(ps)))
            } else {
                None
            },
            None => None,
        }
    } else {
        None
    }
}

/// Entries: none if no entry starts here, else an entry followed by the rest.
pub open spec fn p_pairs(s: Seq<char>, k: int) -> Option<(nat, Seq<(ValView, ExprView)>)>
    decreases left(s, k), 5nat,
{
    match p_pair(s, k) {
        None => Some((0, seq![])),
        Some((n, p)) => match p_pairs_rest(s, k + n) {
            Some((m, ps)) => Some(((n + m) as nat, seq![p] + ps)),
            None => None,
        },
    }
}

/// Further entries, as `p_items_rest` has further items.
pub open spec fn p_pairs_rest(s: Seq<char>, q: int) -> Option<(nat, Seq<(ValView, ExprView)>)>
    decreases left(s, q), 4nat,
{
    if q >= s.len() {
        Some((0, seq![]))
    } else {
        let w = ws(s, q);
        match p_pair(s, q + w) {
            None => Some((0, seq![])),
            Some((n, p)) => if w + n == 0 {
                None
            } else {
                match p_pairs_rest(s, q + w + n) {
                    Some((m, ps)) => Some(((w + n + m) as nat, seq![p] + ps)),
                    None => None,
                }
            },
        }
    }
}

/// An entry: separator, key, separator, expression, separator.
pub open spec fn p_pair(s: Seq<char>, x: int) -> Option<(nat, (ValView, ExprView))>
    decreases left(s, x), 0nat,
{
    let w1 = ws(s, x);
    match p_key(s, x + w1) {
        None => None,
        Some((nk, k)) => {
            let x2 = x + w1 + nk;
            let w2 = ws(s, x2);
            match p_expr(s, x2 + w2) {
                None => None,
                Some((nv, v)) => {
                    let w3 = ws(s, x2 + w2 + nv);
                    Some(((w1 + nk + w2 + nv + w3) as nat, (k, v)))
                },
            }
        },
    }
}

/// A comment: `;`, the rest of the line, and the line feed that ends it.
pub open spec fn p_comment(s: Seq<char>) -> Option<nat> {
    let n = run(s, 1, CharClass::NotNewline);
    if at(s, 0, ';') && at(s, 1 + n as int, '\n') {
        Some((n + 2) as nat)
    } else {
        None
    }
}


// ------------------------------------------------------------------------------------------
// Executable parsers
// ------------------------------------------------------------------------------------------

/// `r` is what the spec parser `sp` gives at position `i`: the same outcome, the same
/// reading, and an end position `consumed` characters further on.
pub open spec fn agrees<T: View>(r: Option<(usize, T)>, sp: Option<(nat, T::V)>, i: int) -> bool {
    match (r, sp) {
        (None, None) => true,
        (Some((j, x)), Some((n, v))) => j == i + n && x@ == v,
        _ => false,
    }
}

/// The characters of `text`, in order.
fn chars_of(text: &str) -> (v: Vec<char>)
    ensures
        v@ == text@,
{
    let mut v: Vec<char> = Vec::new();
    for c in it: text.chars()
        invariant
            v@ == it.seq().take(it.index() as int),
    {
        v.push(c);
    }
    v
}

fn is_white_space_char(c: char) -> (r: bool)
    ensures
        r == is_white_space(c),
{
    let u = c as u32;
    (0x9 <= u && u <= 0xd) || u == 0x20 || u == 0x85 || u == 0xa0 || u == 0x1680 || (0x2000 <= u
        && u <= 0x200a) || u == 0x2028 || u == 0x2029 || u == 0x202f || u == 0x205f || u == 0x3000
}

fn in_class_char(cls: CharClass, c: char) -> (r: bool)
    ensures
        r == in_class(cls, c),
{
    match cls {
        CharClass::Comma => c == ',',
        CharClass::Space => c == ' ' || c == '\t' || c == '\r' || c == '\n',
        CharClass::SymbolChar => {
            let special = c == '[' || c == ']' || c == ':' || c == '(' || c == ')' || c == '{'
                || c == '}' || c == '~' || c == '`' || c == '\'' || c == '"' || c == ',';
            !is_white_space_char(c) && !special
        },
        CharClass::Digit => '0' <= c && c <= '9',
        CharClass::NotNewline => c != '\n',
    }
}

/// The end of the run of `cls` characters that starts at `i`.
fn run_end(s: &Vec<char>, i: usize, cls: CharClass) -> (r: usize)
    requires
        i <= s.len(),
    ensures
        r == i + run(s@, i as int, cls),
        r <= s.len(),
{
    let mut k = i;
    while k < s.len() && in_class_char(cls, s[k])
        invariant
            i <= k <= s.len(),
            run(s@, i as int, cls) == (k - i) + run(s@, k as int, cls),
        decreases s.len() - k,
    {
        k += 1;
    }
    k
}

/// The end of the separator that starts at `i`.
fn ws_end(s: &Vec<char>, i: usize) -> (r: usize)
    requires
        i <= s.len(),
    ensures
        r == i + ws(s@, i as int),
        r <= s.len(),
{
    if i < s.len() && s[i] == ',' {
        run_end(s, i, CharClass::Comma)
    } else {
        run_end(s, i, CharClass::Space)
    }
}

/// The text between positions `j` and `k`.
fn text_between(text: &str, s: &Vec<char>, j: usize, k: usize) -> (r: String)
    requires
        s@ == text@,
        j <= k <= s.len(),
    ensures
        r@ == s@.subrange(j as int, k as int),
{
    String::from_str(text.substring_char(j, k))
}

fn parse_symbol(text: &str, s: &Vec<char>, i: usize) -> (r: Option<(usize, MalVal)>)
    requires
        s@ == text@,
        i <= s.len(),
    ensures
        agrees(r, p_symbol(s@, i as int), i as int),
        r matches Some((k, _)) ==> k <= s.len(),
{
    let j = ws_end(s, i);
    let k = run_end(s, j, CharClass::SymbolChar);
    if k > j {
        Some((k, MalVal::Symbol(text_between(text, s, j, k))))
    } else {
        None
    }
}

fn parse_keyword(text: &str, s: &Vec<char>, i: usize) -> (r: Option<(usize, MalVal)>)
    requires
        s@ == text@,
        i <= s.len(),
    ensures
        agrees(r, p_keyword(s@, i as int), i as int),
        r matches Some((k, _)) ==> k <= s.len(),
{
    let j = ws_end(s, i);
    if j < s.len() && s[j] == ':' {
        let k = run_end(s, j + 1, CharClass::SymbolChar);
        if k > j + 1 {
            return Some((k, MalVal::Keyword(text_between(text, s, j + 1, k))));
        }
    }
    None
}

/// A prefix of a run of digits has at most the value of the whole run.
proof fn lemma_digits_prefix(ds: Seq<char>, m: int)
    requires
        0 <= m <= ds.len(),
    ensures
        digits_value(ds.take(m)) <= digits_value(ds),
    decreases ds.len() - m,
{
    if m < ds.len() {
        lemma_digits_prefix(ds, m + 1);
        assert(ds.take(m + 1).drop_last() =~= ds.take(m));
    } else {
        assert(ds.take(m) =~= ds);
    }
}

#[verifier::rlimit(30)]
fn parse_number(s: &Vec<char>, i: usize) -> (r: Option<(usize, MalVal)>)
    requires
        i <= s.len(),
    ensures
        agrees(r, p_number(s@, i as int), i as int),
        r matches Some((k, _)) ==> k <= s.len(),
{
    let j = ws_end(s, i);
    let k = run_end(s, j, CharClass::Digit);
    if k == j {
        return None;
    }
    let ghost ds = s@.subrange(j as int, k as int);
    let mut v: u64 = 0;
    let mut p = j;
    proof {
        assert(ds.take(0) =~= Seq::<char>::empty());
    }
    while p < k
        invariant
            j <= p <= k <= s.len(),
            j == i + ws(s@, i as int),
            ds == s@.subrange(j as int, k as int),
            k == j + run(s@, j as int, CharClass::Digit),
            v == digits_value(ds.take(p - j)),
            v <= i64::MAX,
        decreases k - p,
    {
        proof {
            lemma_run_members(s@, j as int, CharClass::Digit, p as int);
        }
        let d = (s[p] as u32 - 48) as u64;
        let nv: u128 = (v as u128) * 10 + (d as u128);
        proof {
            let t = ds.take(p - j + 1);
            assert(t.drop_last() =~= ds.take(p - j));
            assert(t.last() == s@[p as int]);
            assert(nv == digits_value(t));
        }
        if nv > 0x7fff_ffff_ffff_ffffu128 {
            proof {
                lemma_digits_prefix(ds, p - j + 1);
            }
            return None;
        }
        v = nv as u64;
        p += 1;
    }
    proof {
        assert(ds.take(k - j) =~= ds);
    }
    Some((k, MalVal::Number(v as i64)))
}

/// Every character of a run belongs to its class.
proof fn lemma_run_members(s: Seq<char>, i: int, cls: CharClass, p: int)
    requires
        i <= p < i + run(s, i, cls),
    ensures
        0 <= p < s.len(),
        in_class(cls, s[p]),
    decreases p - i,
{
    if p > i {
        lemma_run_members(s, i + 1, cls, p);
    }
}

/// What a backslash followed by `c` stands for in a string (see `escape`).
fn escape_text(c: char) -> (r: Option<&'static str>)
    ensures
        match r {
            Some(t) => escape(c) == Some(t@),
            None => escape(c) is None,
        },
{
    if c == '\\' {
        proof { reveal_strlit("\\\\"); }
        Some("\\\\")
    } else if c == '"' {
        proof { reveal_strlit("\\\""); }
        Some("\\\"")
    } else if c == 'n' {
        proof { reveal_strlit("\n"); }
        Some("\n")
    } else if c == 't' {
        proof { reveal_strlit("\t"); }
        Some("\t")
    } else {
        None
    }
}

#[verifier::rlimit(30)]
fn parse_string(text: &str, s: &Vec<char>, i: usize) -> (r: Option<(usize, MalVal)>)
    requires
        s@ == text@,
        i <= s.len(),
    ensures
        agrees(r, p_string(s@, i as int), i as int),
        r matches Some((k, _)) ==> k <= s.len(),
{
    if !(i < s.len() && s[i] == '"') {
        return None;
    }
    let start = i + 1;
    let mut acc = String::new();
    let mut p = start;
    let mut run_start = start;
    while p < s.len()
        invariant
            s@ == text@,
            i < s.len(),
            s@[i as int] == '"',
            start == i + 1,
            start <= run_start <= p <= s.len(),
            string_body(s@, start as int) == match string_body(s@, p as int) {
                Some((n, t)) => Some(
                    ((n + (p - start)) as nat, acc@ + s@.subrange(run_start as int, p as int) + t),
                ),
                None => None,
            },
        decreases s.len() - p,
    {
        let c = s[p];
        if c == '"' {
            let piece = text_between(text, s, run_start, p);
            acc.append(piece.as_str());
            proof {
                assert(acc@ + Seq::<char>::empty() =~= acc@);
            }
            return Some((p + 1, MalVal::String(acc)));
        } else if c == '\\' {
            let piece = text_between(text, s, run_start, p);
            acc.append(piece.as_str());
            if p + 1 < s.len() {
                match escape_text(s[p + 1]) {
                    Some(e) => {
                        let ghost before = acc@;
                        acc.append(e);
                        proof {
                            match string_body(s@, p + 2) {
                                Some((n, t)) => {
                                    assert(before + (e@ + t) =~= acc@ + s@.subrange(
                                        (p + 2) as int,
                                        (p + 2) as int,
                                    ) + t);
                                },
                                None => {},
                            }
                        }
                        p += 2;
                        run_start = p;
                    },
                    None => return None,
                }
            } else {
                return None;
            }
        } else {
            proof {
                match string_body(s@, p + 1) {
                    Some((n, t)) => {
                        assert(acc@ + s@.subrange(run_start as int, p as int) + (seq![s@[p as int]]
                            + t) =~= acc@ + s@.subrange(run_start as int, p + 1) + t);
                    },
                    None => {},
                }
            }
            p += 1;
        }
    }
    None
}

fn parse_key(text: &str, s: &Vec<char>, i: usize) -> (r: Option<(usize, MalVal)>)
    requires
        s@ == text@,
        i <= s.len(),
    ensures
        agrees(r, p_key(s@, i as int), i as int),
        r matches Some((k, _)) ==> k <= s.len(),
{
    match parse_number(s, i) {
        Some(r) => Some(r),
        None => match parse_symbol(text, s, i) {
            Some(r) => Some(r),
            None => match parse_string(text, s, i) {
                Some(r) => Some(r),
                None => parse_keyword(text, s, i),
            },
        },
    }
}

/// The views of parsed entries.
pub open spec fn pairs_view(ps: Seq<(MalVal, Expr)>) -> Seq<(ValView, ExprView)> {
    ps.map_values(|p: (MalVal, Expr)| (p.0@, p.1@))
}

fn parse_expr_at(text: &str, s: &Vec<char>, i: usize) -> (r: Option<(usize, Expr)>)
    requires
        s@ == text@,
        i <= s.len(),
    ensures
        agrees(r, p_expr(s@, i as int), i as int),
        r matches Some((j, _)) ==> j <= s.len(),
    decreases left(s@, i as int), 3nat,
{
    let j = ws_end(s, i);
    parse_alt(text, s, j)
}

#[verifier::rlimit(60)]
fn parse_alt(text: &str, s: &Vec<char>, j: usize) -> (r: Option<(usize, Expr)>)
    requires
        s@ == text@,
        j <= s.len(),
    ensures
        agrees(r, p_alt(s@, j as int), j as int),
        r matches Some((k, _)) ==> k <= s.len(),
    decreases left(s@, j as int), 2nat,
{
    if let Some((k, es)) = parse_seq(text, s, j, '(', ')') {
        return Some((k, Expr::Container(MalContainer::List(es))));
    }
    if let Some((k, es)) = parse_seq(text, s, j, '[', ']') {
        return Some((k, Expr::Container(MalContainer::Vector(es))));
    }
    if let Some((k, m)) = parse_map(text, s, j) {
        return Some((k, Expr::Container(MalContainer::HashMap(m))));
    }
    if let Some((k, v)) = parse_number(s, j) {
        return Some((k, Expr::Value(v)));
    }
    if let Some((k, v)) = parse_symbol(text, s, j) {
        return Some((k, Expr::Value(v)));
    }
    if let Some((k, v)) = parse_keyword(text, s, j) {
        return Some((k, Expr::Value(v)));
    }
    if let Some((k, v)) = parse_string(text, s, j) {
        return Some((k, Expr::Value(v)));
    }
    parse_quoted(text, s, j)
}

fn parse_quoted(text: &str, s: &Vec<char>, j: usize) -> (r: Option<(usize, Expr)>)
    requires
        s@ == text@,
        j <= s.len(),
    ensures
        agrees(r, p_quoted(s@, j as int), j as int),
        r matches Some((k, _)) ==> k <= s.len(),
    decreases left(s@, j as int), 1nat,
{
    if j >= s.len() {
        return None;
    }
    let c = s[j];
    if c == '`' || c == '\'' {
        let kind = if c == '`' {
            QuoteKind::Quasi
        } else {
            QuoteKind::Quote
        };
        return match parse_expr_at(text, s, j + 1) {
            Some((k, e)) => Some((k, Expr::Quoted(kind, Box::new(e)))),
            None => None,
        };
    }
    if c != '~' {
        return None;
    }
    if j + 1 < s.len() && s[j + 1] == '@' {
        if let Some((k, e)) = parse_expr_at(text, s, j + 2) {
            return Some((k, Expr::Quoted(QuoteKind::SpliceUnquote, Box::new(e))));
        }
    }
    match parse_expr_at(text, s, j + 1) {
        Some((k, e)) => Some((k, Expr::Quoted(QuoteKind::Unquote, Box::new(e)))),
        None => None,
    }
}

fn parse_seq(text: &str, s: &Vec<char>, j: usize, open: char, close: char) -> (r: Option<
    (usize, Vec<Box<Expr>>),
>)
    requires
        s@ == text@,
        j <= s.len(),
    ensures
        match (r, p_seq(s@, j as int, open, close)) {
            (None, None) => true,
            (Some((k, es)), Some((n, vs))) => k == j + n && k <= s.len() && exprs_view(es@) == vs,
            _ => false,
        },
    decreases left(s@, j as int), 1nat,
{
    let k = ws_end(s, j);
    if !(k < s.len() && s[k] == open) {
        return None;
    }
    match parse_items(text, s, k + 1) {
        Some((q, es)) => {
            let r = ws_end(s, q);
            if r < s.len() && s[r] == close {
                Some((r + 1, es))
            } else {
                None
            }
        },
        None => None,
    }
}

#[verifier::rlimit(30)]
fn parse_items(text: &str, s: &Vec<char>, k: usize) -> (r: Option<(usize, Vec<Box<Expr>>)>)
    requires
        s@ == text@,
        k <= s.len(),
    ensures
        match (r, p_items(s@, k as int)) {
            (None, None) => true,
            (Some((q, es)), Some((n, vs))) => q == k + n && q <= s.len() && exprs_view(es@) == vs,
            _ => false,
        },
    decreases left(s@, k as int), 5nat,
{
    let mut items: Vec<Box<Expr>> = Vec::new();
    let mut q = match parse_expr_at(text, s, k) {
        None => {
            proof {
                assert(exprs_view(items@) =~= Seq::<ExprView>::empty());
            }
            return Some((k, items));
        },
        Some((k2, e)) => {
            items.push(Box::new(e));
            proof {
                assert(exprs_view(items@) =~= seq![e@]);
            }
            k2
        },
    };
    loop
        invariant
            s@ == text@,
            k <= q <= s.len(),
            p_items(s@, k as int) == match p_items_rest(s@, q as int) {
                Some((m, es)) => Some(((q - k + m) as nat, exprs_view(items@) + es)),
                None => None,
            },
        decreases left(s@, q as int),
    {
        if q >= s.len() {
            proof {
                assert(exprs_view(items@) + Seq::<ExprView>::empty() =~= exprs_view(items@));
            }
            return Some((q, items));
        }
        let q1 = ws_end(s, q);
        match parse_expr_at(text, s, q1) {
            None => {
                proof {
                    assert(exprs_view(items@) + Seq::<ExprView>::empty() =~= exprs_view(items@));
                }
                return Some((q, items));
            },
            Some((q2, e)) => {
                if q2 == q {
                    return None;
                }
                let ghost before = exprs_view(items@);
                items.push(Box::new(e));
                proof {
                    assert(exprs_view(items@) =~= before.push(e@));
                    match p_items_rest(s@, q2 as int) {
                        Some((m, es)) => {
                            assert(before + (seq![e@] + es) =~= exprs_view(items@) + es);
                        },
                        None => {},
                    }
                }
                q = q2;
            },
        }
    }
}

#[verifier::rlimit(30)]
fn parse_map(text: &str, s: &Vec<char>, j: usize) -> (r: Option<(usize, MalMap)>)
    requires
        s@ == text@,
        j <= s.len(),
    ensures
        agrees(r, p_map(s@, j as int), j as int),
        r matches Some((k, _)) ==> k <= s.len(),
    decreases left(s@, j as int), 1nat,
{
    if !(j < s.len() && s[j] == '{') {
        return None;
    }
    let k = ws_end(s, j + 1);
    match parse_pairs(text, s, k) {
        Some((q, pairs)) => {
            if q < s.len() && s[q] == '}' {
                Some((q + 1, build_mal_map(pairs)))
            } else {
                None
            }
        },
        None => None,
    }
}

/// Binds the pairs in order into a map (see `build_map`).
#[verifier::rlimit(30)]
fn build_mal_map(pairs: Vec<(MalVal, Expr)>) -> (m: MalMap)
    ensures
        m@ == build_map(pairs_view(pairs@)),
{
    let ghost ps = pairs_view(pairs@);
    let mut m = MalMap::new();
    let mut rest = pairs;
    let n = rest.len();
    let mut t: usize = 0;
    proof {
        assert(ps.take(0) =~= Seq::<(ValView, ExprView)>::empty());
    }
    while t < n
        invariant
            t <= n,
            rest@.len() + t == n,
            n == ps.len(),
            forall|i: int|
                0 <= i < rest@.len() ==> (#[trigger] rest@[i].0@, rest@[i].1@) == ps[t + i],
            m@ == build_map(ps.take(t as int)),
        decreases n - t,
    {
        let ghost before = rest@;
        let (k, v) = rest.remove(0);
        proof {
            let tk = ps.take(t + 1);
            assert(tk.drop_last() =~= ps.take(t as int));
            assert forall|i: int| 0 <= i < rest@.len() implies (#[trigger] rest@[i].0@,
                rest@[i].1@) == ps[t + 1 + i] by {
                assert(rest@[i] == before[i + 1]);
            }
        }
        m.insert(k, Box::new(v));
        t += 1;
    }
    proof {
        assert(ps.take(n as int) =~= ps);
    }
    m
}

#[verifier::rlimit(60)]
fn parse_pairs(text: &str, s: &Vec<char>, k: usize) -> (r: Option<(usize, Vec<(MalVal, Expr)>)>)
    requires
        s@ == text@,
        k <= s.len(),
    ensures
        match (r, p_pairs(s@, k as int)) {
            (None, None) => true,
            (Some((q, ps)), Some((n, vs))) => q == k + n && q <= s.len() && pairs_view(ps@) == vs,
            _ => false,
        },
    decreases left(s@, k as int), 5nat,
{
    let mut pairs: Vec<(MalVal, Expr)> = Vec::new();
    let mut q = match parse_pair(text, s, k) {
        None => {
            proof {
                assert(pairs_view(pairs@) =~= Seq::<(ValView, ExprView)>::empty());
            }
            return Some((k, pairs));
        },
        Some((k2, p)) => {
            let ghost pv = p@;
            pairs.push(p);
            proof {
                assert(pairs_view(pairs@) =~= seq![pv]);
            }
            k2
        },
    };
    loop
        invariant
            s@ == text@,
            k <= q <= s.len(),
            p_pairs(s@, k as int) == match p_pairs_rest(s@, q as int) {
                Some((m, ps)) => Some(((q - k + m) as nat, pairs_view(pairs@) + ps)),
                None => None,
            },
        decreases left(s@, q as int),
    {
        if q >= s.len() {
            proof {
                assert(pairs_view(pairs@) + Seq::<(ValView, ExprView)>::empty() =~= pairs_view(
                    pairs@,
                ));
            }
            return Some((q, pairs));
        }
        let q1 = ws_end(s, q);
        match parse_pair(text, s, q1) {
            None => {
                proof {
                    assert(pairs_view(pairs@) + Seq::<(ValView, ExprView)>::empty() =~= pairs_view(
                        pairs@,
                    ));
                }
                return Some((q, pairs));
            },
            Some((q2, p)) => {
                if q2 == q {
                    return None;
                }
                let ghost before = pairs_view(pairs@);
                let ghost pv = p@;
                pairs.push(p);
                proof {
                    assert(pairs_view(pairs@) =~= before.push(pv));
                    match p_pairs_rest(s@, q2 as int) {
                        Some((m, ps)) => {
                            assert(before + (seq![pv] + ps) =~= pairs_view(pairs@) + ps);
                        },
                        None => {},
                    }
                }
                q = q2;
            },
        }
    }
}

#[verifier::rlimit(30)]
fn parse_pair(text: &str, s: &Vec<char>, x: usize) -> (r: Option<(usize, (MalVal, Expr))>)
    requires
        s@ == text@,
        x <= s.len(),
    ensures
        agrees(r, p_pair(s@, x as int), x as int),
        r matches Some((k, _)) ==> k <= s.len(),
    decreases left(s@, x as int), 0nat,
{
    let x1 = ws_end(s, x);
    match parse_key(text, s, x1) {
        None => None,
        Some((x2, key)) => {
            let x3 = ws_end(s, x2);
            match parse_expr_at(text, s, x3) {
                None => None,
                Some((x4, v)) => {
                    let x5 = ws_end(s, x4);
                    Some((x5, (key, v)))
                },
            }
        },
    }
}

/// Reads one Scheme expression from the start of `input` and gives back the rest of the
/// input with it (see `p_expr`): as in Scheme, a run of decimal digits is a number. Where
/// no expression can be read, the error is a syntax error that holds the input.
pub fn parse_expr(input: &str) -> (r: MalResult<(&str, Expr)>)
    ensures
        match p_expr(input@, 0) {
            Some((n, e)) => r matches Ok(res) && res.0@ == input@.skip(n as int) && res.1@ == e,
            None => fails_with(r, ErrorView::SyntaxError(input@)),
        },
{
    let s = chars_of(input);
    match parse_expr_at(input, &s, 0) {
        Some((j, e)) => {
            let rest = input.substring_char(j, s.len());
            proof {
                assert(rest@ =~= input@.skip(j as int));
            }
            Ok((rest, e))
        },
        None => MalError::syntax_error(input),
    }
}

/// Reads a comment from the start of `input` and gives back the rest of the input (see
/// `p_comment`). Where there is no comment, the error is a syntax error that holds the input.
pub fn parse_comment(input: &str) -> (r: MalResult<&str>)
    ensures
        match p_comment(input@) {
            Some(n) => r matches Ok(rest) && rest@ == input@.skip(n as int),
            None => fails_with(r, ErrorView::SyntaxError(input@)),
        },
{
    let s = chars_of(input);
    if s.len() > 0 && s[0] == ';' {
        let k = run_end(&s, 1, CharClass::NotNewline);
        if k < s.len() && s[k] == '\n' {
            let rest = input.substring_char(k + 1, s.len());
            proof {
                assert(rest@ =~= input@.skip(k + 1));
            }
            return Ok(rest);
        }
    }
    MalError::syntax_error(input)
}

} // verus!
