//! The values and expressions of the interpreter, with their mathematical views.

use vstd::prelude::*;

use crate::text::{i64_to_string, int_decimal, push_i64_decimal};

verus! {

// ------------------------------------------------------------------------------------------
// Errors
// ------------------------------------------------------------------------------------------

/// What can go wrong while reading or evaluating.
#[derive(Debug, Clone, PartialEq, Eq)]
pub enum MalError {
    UnknownIdent(String),
    SyntaxError(String),
    NotAFun(String),
    TypeError(String),
    Other(String),
}

/// The mathematical view of a `MalError`: its kind and its message.
pub enum ErrorView {
    UnknownIdent(Seq<char>),
    SyntaxError(Seq<char>),
    NotAFun(Seq<char>),
    TypeError(Seq<char>),
    Other(Seq<char>),
}

impl View for MalError {
    type V = ErrorView;

    open spec fn view(&self) -> ErrorView {
        match self {
            MalError::UnknownIdent(s) => ErrorView::UnknownIdent(s@),
            MalError::SyntaxError(s) => ErrorView::SyntaxError(s@),
            MalError::NotAFun(s) => ErrorView::NotAFun(s@),
            MalError::TypeError(s) => ErrorView::TypeError(s@),
            MalError::Other(s) => ErrorView::Other(s@),
        }
    }
}

/// Results of reading and evaluating.
pub type MalResult<T> = Result<T, MalError>;

/// `r` failed with an error whose view is `e`.
pub open spec fn fails_with<T>(r: MalResult<T>, e: ErrorView) -> bool {
    match r {
        Err(err) => err@ == e,
        Ok(_) => false,
    }
}

impl MalError {
    /// Fails with `UnknownIdent(s)`.
    pub fn unknown_ident<T>(s: &str) -> (r: MalResult<T>)
        ensures
            fails_with(r, ErrorView::UnknownIdent(s@)),
    {
        Err(MalError::UnknownIdent(String::from_str(s)))
    }

    /// Fails with `SyntaxError(s)`.
    pub fn syntax_error<T>(s: &str) -> (r: MalResult<T>)
        ensures
            fails_with(r, ErrorView::SyntaxError(s@)),
    {
        Err(MalError::SyntaxError(String::from_str(s)))
    }

    /// Fails with `Other(s)`.
    pub fn other_error<T>(s: &str) -> (r: MalResult<T>)
        ensures
            fails_with(r, ErrorView::Other(s@)),
    {
        Err(MalError::Other(String::from_str(s)))
    }

    /// Fails with `NotAFun(s)`.
    pub fn not_afun_error<T>(s: &str) -> (r: MalResult<T>)
        ensures
            fails_with(r, ErrorView::NotAFun(s@)),
    {
        Err(MalError::NotAFun(String::from_str(s)))
    }

    /// Fails with `TypeError(s)`.
    pub fn type_error<T>(s: &str) -> (r: MalResult<T>)
        ensures
            fails_with(r, ErrorView::TypeError(s@)),
    {
        Err(MalError::TypeError(String::from_str(s)))
    }
}

/// Converts a borrowed error into an owned one by copying it.
impl From<&MalError> for MalError {
    fn from(e: &MalError) -> (r: Self) {
        match e {
            MalError::UnknownIdent(s) => MalError::UnknownIdent(s.clone()),
            MalError::SyntaxError(s) => MalError::SyntaxError(s.clone()),
            MalError::NotAFun(s) => MalError::NotAFun(s.clone()),
            MalError::TypeError(s) => MalError::TypeError(s.clone()),
            MalError::Other(s) => MalError::Other(s.clone()),
        }
    }
}

impl vstd::std_specs::convert::FromSpecImpl<&MalError> for MalError {
    open spec fn obeys_from_spec() -> bool {
        true
    }

    open spec fn from_spec(e: &MalError) -> MalError {
        *e
    }
}

// ------------------------------------------------------------------------------------------
// Built-in operators
// ------------------------------------------------------------------------------------------

/// The arithmetic operators that the evaluator provides.
#[derive(Debug, Clone, Copy, PartialEq, Eq, Hash, Structural)]
pub enum BuiltIn {
    Add,
    Sub,
    Mul,
    Div,
}

/// The operator text of a built-in, as its `Display` writes it.
pub open spec fn op_text(b: BuiltIn) -> Seq<char> {
    match b {
        BuiltIn::Add => seq!['+'],
        BuiltIn::Sub => seq!['-'],
        BuiltIn::Div => seq!['/'],
        BuiltIn::Mul => seq!['*'],
    }
}

/// The variant name of a built-in, as its `Debug` writes it.
pub open spec fn op_name(b: BuiltIn) -> Seq<char> {
    match b {
        BuiltIn::Add => seq!['A', 'd', 'd'],
        BuiltIn::Sub => seq!['S', 'u', 'b'],
        BuiltIn::Mul => seq!['M', 'u', 'l'],
        BuiltIn::Div => seq!['D', 'i', 'v'],
    }
}

impl BuiltIn {
    /// The operator text: `+`, `-`, `*` or `/`.
    pub fn to_string(&self) -> (r: String)
        ensures
            r@ == op_text(*self),
    {
        match self {
            BuiltIn::Add => {
                proof { reveal_strlit("+"); }
                String::from_str("+")
            },
            BuiltIn::Sub => {
                proof { reveal_strlit("-"); }
                String::from_str("-")
            },
            BuiltIn::Div => {
                proof { reveal_strlit("/"); }
                String::from_str("/")
            },
            BuiltIn::Mul => {
                proof { reveal_strlit("*"); }
                String::from_str("*")
            },
        }
    }

    /// The variant name: `Add`, `Sub`, `Mul` or `Div`.
    pub fn name(&self) -> (r: String)
        ensures
            r@ == op_name(*self),
    {
        match self {
            BuiltIn::Add => {
                proof { reveal_strlit("Add"); }
                String::from_str("Add")
            },
            BuiltIn::Sub => {
                proof { reveal_strlit("Sub"); }
                String::from_str("Sub")
            },
            BuiltIn::Mul => {
                proof { reveal_strlit("Mul"); }
                String::from_str("Mul")
            },
            BuiltIn::Div => {
                proof { reveal_strlit("Div"); }
                String::from_str("Div")
            },
        }
    }
}

/// The environment key under which a built-in is bound, in the order `Add`, `Sub`, `Mul`,
/// `Div`.
pub open spec fn builtin_key(b: BuiltIn) -> u32 {
    match b {
        BuiltIn::Add => 0,
        BuiltIn::Sub => 1,
        BuiltIn::Mul => 2,
        BuiltIn::Div => 3,
    }
}

/// The built-in whose operator text is `s`, if any.
pub open spec fn builtin_named(s: Seq<char>) -> Option<BuiltIn> {
    if s == op_text(BuiltIn::Add) {
        Some(BuiltIn::Add)
    } else if s == op_text(BuiltIn::Sub) {
        Some(BuiltIn::Sub)
    } else if s == op_text(BuiltIn::Mul) {
        Some(BuiltIn::Mul)
    } else if s == op_text(BuiltIn::Div) {
        Some(BuiltIn::Div)
    } else {
        None
    }
}

impl BuiltIn {
    /// The environment key of this built-in (see `builtin_key`).
    pub fn key(&self) -> (k: u32)
        ensures
            k == builtin_key(*self),
    {
        match self {
            BuiltIn::Add => 0,
            BuiltIn::Sub => 1,
            BuiltIn::Mul => 2,
            BuiltIn::Div => 3,
        }
    }

    /// The built-in whose operator text is `s` (see `builtin_named`).
    pub fn named(s: &str) -> (r: Option<BuiltIn>)
        ensures
            r == builtin_named(s@),
    {
        if s.unicode_len() != 1 {
            return None;
        }
        let c = s.get_char(0);
        proof {
            assert(s@ =~= seq![c]);
        }
        if c == '+' {
            Some(BuiltIn::Add)
        } else if c == '-' {
            Some(BuiltIn::Sub)
        } else if c == '*' {
            Some(BuiltIn::Mul)
        } else if c == '/' {
            Some(BuiltIn::Div)
        } else {
            None
        }
    }
}

/// A primitive that can be applied to evaluated arguments. `Binary(op)` folds the binary
/// operator `op` over its arguments from the left.
#[derive(Debug, Clone, Copy, PartialEq, Eq, Structural)]
pub enum Builtin {
    Binary(BuiltIn),
}

// ------------------------------------------------------------------------------------------
// Atomic values
// ------------------------------------------------------------------------------------------

/// An atomic value.
#[derive(Debug, Clone, PartialEq, Eq, Hash)]
pub enum MalVal {
    Number(i64),
    BSymbol(BuiltIn),
    Symbol(String),
    String(String),
    Keyword(String),
}

/// The mathematical view of a `MalVal`.
pub enum ValView {
    Number(i64),
    BSymbol(BuiltIn),
    Symbol(Seq<char>),
    Str(Seq<char>),
    Keyword(Seq<char>),
}

impl View for MalVal {
    type V = ValView;

    open spec fn view(&self) -> ValView {
        match self {
            MalVal::Number(n) => ValView::Number(*n),
            MalVal::BSymbol(b) => ValView::BSymbol(*b),
            MalVal::Symbol(s) => ValView::Symbol(s@),
            MalVal::String(s) => ValView::Str(s@),
            MalVal::Keyword(s) => ValView::Keyword(s@),
        }
    }
}

/// How a value is displayed: numbers in decimal, strings in double quotes, keywords after
/// a colon, built-in symbols by their variant name.
pub open spec fn display_val(v: ValView) -> Seq<char> {
    match v {
        ValView::Number(n) => int_decimal(n as int),
        ValView::Symbol(s) => s,
        ValView::BSymbol(b) => op_name(b),
        ValView::Str(s) => seq!['"'] + s + seq!['"'],
        ValView::Keyword(k) => seq![':'] + k,
    }
}

/// The integer in a value, or the error that `as_i64` reports for a value of another kind.
pub open spec fn val_as_i64(v: ValView) -> Result<i64, ErrorView> {
    match v {
        ValView::Number(n) => Ok(n),
        ValView::Symbol(s) => Err(ErrorView::Other("as_i64: panic: Got Symbol "@ + s)),
        ValView::BSymbol(b) => Err(ErrorView::Other("as_i64: panic: Got BSymbol "@ + op_name(b))),
        ValView::Str(s) => Err(ErrorView::Other("as_i64: panic: Got String "@ + s)),
        ValView::Keyword(k) => Err(ErrorView::Other("as_i64: panic: Got Keyword "@ + k)),
    }
}

/// The text of a value: the bare name of a symbol, string or keyword; the decimal text of
/// a number; the variant name of a built-in symbol.
pub open spec fn val_as_string(v: ValView) -> Seq<char> {
    match v {
        ValView::Symbol(s) => s,
        ValView::BSymbol(b) => op_name(b),
        ValView::Str(s) => s,
        ValView::Keyword(k) => k,
        ValView::Number(n) => int_decimal(n as int),
    }
}

impl MalVal {
    pub fn number(n: i64) -> (r: Self)
        ensures
            r@ == ValView::Number(n),
    {
        MalVal::Number(n)
    }

    pub fn symbol(s: String) -> (r: Self)
        ensures
            r@ == ValView::Symbol(s@),
    {
        MalVal::Symbol(s)
    }

    pub fn builtin_symbol(s: BuiltIn) -> (r: Self)
        ensures
            r@ == ValView::BSymbol(s),
    {
        MalVal::BSymbol(s)
    }

    pub fn string(s: String) -> (r: Self)
        ensures
            r@ == ValView::Str(s@),
    {
        MalVal::String(s)
    }

    pub fn keyword(s: String) -> (r: Self)
        ensures
            r@ == ValView::Keyword(s@),
    {
        MalVal::Keyword(s)
    }

    /// An equal copy of this value.
    pub fn copy(&self) -> (r: Self)
        ensures
            r@ == self@,
    {
        match self {
            MalVal::Number(n) => MalVal::Number(*n),
            MalVal::BSymbol(b) => MalVal::BSymbol(*b),
            MalVal::Symbol(s) => MalVal::Symbol(s.clone()),
            MalVal::String(s) => MalVal::String(s.clone()),
            MalVal::Keyword(s) => MalVal::Keyword(s.clone()),
        }
    }

    /// Whether two values are equal.
    pub fn same(&self, other: &MalVal) -> (r: bool)
        ensures
            r == (self@ == other@),
    {
        match (self, other) {
            (MalVal::Number(a), MalVal::Number(b)) => *a == *b,
            (MalVal::BSymbol(a), MalVal::BSymbol(b)) => *a == *b,
            (MalVal::Symbol(a), MalVal::Symbol(b)) => *a == *b,
            (MalVal::String(a), MalVal::String(b)) => *a == *b,
            (MalVal::Keyword(a), MalVal::Keyword(b)) => *a == *b,
            _ => false,
        }
    }

    /// The integer in a `Number`; any other value is an error that names it.
    pub fn as_i64(&self) -> (r: MalResult<i64>)
        ensures
            match val_as_i64(self@) {
                Ok(n) => r == Ok::<i64, MalError>(n),
                Err(e) => fails_with(r, e),
            },
    {
        match self {
            MalVal::Number(i) => Ok(*i),
            MalVal::Symbol(i) => {
                let mut m = String::from_str("as_i64: panic: Got Symbol ");
                m.append(i.as_str());
                MalError::other_error(m.as_str())
            },
            MalVal::BSymbol(i) => {
                let mut m = String::from_str("as_i64: panic: Got BSymbol ");
                let n = i.name();
                m.append(n.as_str());
                MalError::other_error(m.as_str())
            },
            MalVal::String(i) => {
                let mut m = String::from_str("as_i64: panic: Got String ");
                m.append(i.as_str());
                MalError::other_error(m.as_str())
            },
            MalVal::Keyword(i) => {
                let mut m = String::from_str("as_i64: panic: Got Keyword ");
                m.append(i.as_str());
                MalError::other_error(m.as_str())
            },
        }
    }

    /// The text of the value (see `val_as_string`).
    pub fn as_string(&self) -> (r: String)
        ensures
            r@ == val_as_string(self@),
    {
        match self {
            MalVal::Symbol(i) => i.clone(),
            MalVal::BSymbol(i) => i.name(),
            MalVal::String(i) => i.clone(),
            MalVal::Keyword(i) => i.clone(),
            MalVal::Number(i) => i64_to_string(*i),
        }
    }

    /// Appends the displayed text of the value to `out`.
    pub fn push_display(&self, out: &mut String)
        ensures
            final(out)@ == old(out)@ + display_val(self@),
    {
        match self {
            MalVal::Number(n) => push_i64_decimal(out, *n),
            MalVal::Symbol(s) => out.append(s.as_str()),
            MalVal::BSymbol(b) => {
                let n = b.name();
                out.append(n.as_str());
            },
            MalVal::String(s) => {
                proof { reveal_strlit("\""); }
                out.append("\"");
                out.append(s.as_str());
                out.append("\"");
            },
            MalVal::Keyword(k) => {
                proof { reveal_strlit(":"); }
                out.append(":");
                out.append(k.as_str());
            },
        }
    }

    /// The displayed text of the value (see `display_val`).
    pub fn to_string(&self) -> (r: String)
        ensures
            r@ == display_val(self@),
    {
        let mut s = String::new();
        self.push_display(&mut s);
        proof {
            assert(s@ =~= display_val(self@));
        }
        s
    }
}

} // verus!

verus! {

// ------------------------------------------------------------------------------------------
// Expressions
// ------------------------------------------------------------------------------------------

/// The kinds of quotation.
#[derive(Debug, Clone, Copy, PartialEq, Eq, Structural)]
pub enum QuoteKind {
    Quote,
    Unquote,
    Quasi,
    SpliceUnquote,
}

/// The text that opens a quoted form: `(quote `, `(unquote `, `(quasiquote ` or
/// `(splice-unquote `.
pub open spec fn quote_open(k: QuoteKind) -> Seq<char> {
    match k {
        QuoteKind::Quote => "(quote "@,
        QuoteKind::Unquote => "(unquote "@,
        QuoteKind::Quasi => "(quasiquote "@,
        QuoteKind::SpliceUnquote => "(splice-unquote "@,
    }
}

/// Collections of expressions.
#[derive(Debug, PartialEq)]
pub enum MalContainer {
    List(Vec<Box<Expr>>),
    Vector(Vec<Box<Expr>>),
    HashMap(MalMap),
}

/// An expression: an atomic value, a collection, or a quoted expression.
#[derive(Debug)]
pub enum Expr {
    Value(MalVal),
    Container(MalContainer),
    Quoted(QuoteKind, Box<Expr>),
}

/// A map from values to expressions. No key occurs twice; the entries keep the order in
/// which their keys were first inserted.
#[derive(Debug)]
pub struct MalMap {
    entries: Vec<(MalVal, Box<Expr>)>,
}

/// The mathematical view of an expression.
pub enum ExprView {
    Value(ValView),
    List(Seq<ExprView>),
    Vector(Seq<ExprView>),
    HashMap(Seq<(ValView, ExprView)>),
    Quoted(QuoteKind, Box<ExprView>),
}

/// The views of a sequence of boxed expressions.
pub open spec fn exprs_view(es: Seq<Box<Expr>>) -> Seq<ExprView> {
    Seq::new(es.len(), |i: int| expr_view(*es[i]))
}

/// The view of an expression.
pub closed spec fn expr_view(e: Expr) -> ExprView
    decreases e,
{
    match e {
        Expr::Value(v) => ExprView::Value(v@),
        Expr::Container(MalContainer::List(es)) => ExprView::List(
            Seq::new(
                es@.len(),
                |i: int|
                    if 0 <= i < es@.len() {
                        expr_view(*es@[i])
                    } else {
                        ExprView::Value(ValView::Number(0))
                    },
            ),
        ),
        Expr::Container(MalContainer::Vector(es)) => ExprView::Vector(
            Seq::new(
                es@.len(),
                |i: int|
                    if 0 <= i < es@.len() {
                        expr_view(*es@[i])
                    } else {
                        ExprView::Value(ValView::Number(0))
                    },
            ),
        ),
        Expr::Container(MalContainer::HashMap(m)) => ExprView::HashMap(map_view(m)),
        Expr::Quoted(k, b) => ExprView::Quoted(k, Box::new(expr_view(*b))),
    }
}

/// The view of a map: its entries in order, each key and value by its view.
pub closed spec fn map_view(m: MalMap) -> Seq<(ValView, ExprView)>
    decreases m,
{
    Seq::new(
        m.entries@.len(),
        |i: int|
            if 0 <= i < m.entries@.len() {
                (m.entries@[i].0@, expr_view(*m.entries@[i].1))
            } else {
                (ValView::Number(0), ExprView::Value(ValView::Number(0)))
            },
    )
}

impl View for Expr {
    type V = ExprView;

    open spec fn view(&self) -> ExprView {
        expr_view(*self)
    }
}

impl View for MalMap {
    type V = Seq<(ValView, ExprView)>;

    open spec fn view(&self) -> Seq<(ValView, ExprView)> {
        map_view(*self)
    }
}

/// How the view of an expression unfolds, one layer at a time.
pub broadcast proof fn lemma_expr_view(e: Expr)
    ensures
        #[trigger] expr_view(e) == match e {
            Expr::Value(v) => ExprView::Value(v@),
            Expr::Container(MalContainer::List(es)) => ExprView::List(exprs_view(es@)),
            Expr::Container(MalContainer::Vector(es)) => ExprView::Vector(exprs_view(es@)),
            Expr::Container(MalContainer::HashMap(m)) => ExprView::HashMap(m@),
            Expr::Quoted(k, b) => ExprView::Quoted(k, Box::new(expr_view(*b))),
        },
{
    match e {
        Expr::Container(MalContainer::List(es)) => {
            assert(expr_view(e)->List_0 =~= exprs_view(es@));
        },
        Expr::Container(MalContainer::Vector(es)) => {
            assert(expr_view(e)->Vector_0 =~= exprs_view(es@));
        },
        _ => {},
    }
}

/// No key occurs twice among the pairs.
pub open spec fn keys_unique(ps: Seq<(ValView, ExprView)>) -> bool {
    forall|i: int, j: int| 0 <= i < j < ps.len() ==> ps[i].0 != ps[j].0
}

/// The position of key `k` among the pairs, if it occurs.
pub open spec fn key_index(ps: Seq<(ValView, ExprView)>, k: ValView) -> Option<int> {
    if exists|i: int| 0 <= i < ps.len() && ps[i].0 == k {
        Some(choose|i: int| 0 <= i < ps.len() && ps[i].0 == k)
    } else {
        None
    }
}

/// The pairs after binding `k` to `v`: a present key keeps its place and takes the new
/// value, a new key goes at the end.
pub open spec fn map_insert(ps: Seq<(ValView, ExprView)>, k: ValView, v: ExprView) -> Seq<
    (ValView, ExprView),
> {
    match key_index(ps, k) {
        Some(i) => ps.update(i, (k, v)),
        None => ps.push((k, v)),
    }
}

/// The value bound to `k`, if any.
pub open spec fn map_lookup(ps: Seq<(ValView, ExprView)>, k: ValView) -> Option<ExprView> {
    match key_index(ps, k) {
        Some(i) => Some(ps[i].1),
        None => None,
    }
}

impl MalMap {
    #[verifier::type_invariant]
    spec fn unique_keys(self) -> bool {
        keys_unique(map_view(self))
    }

    /// The empty map.
    pub fn new() -> (r: Self)
        ensures
            r@ == Seq::<(ValView, ExprView)>::empty(),
    {
        let r = MalMap { entries: Vec::new() };
        proof {
            assert(map_view(r) =~= Seq::<(ValView, ExprView)>::empty());
        }
        r
    }

    /// The number of keys.
    pub fn len(&self) -> (n: usize)
        ensures
            n == self@.len(),
    {
        self.entries.len()
    }

    /// The key and the value of the entry at position `i`.
    pub fn entry(&self, i: usize) -> (r: (&MalVal, &Expr))
        requires
            i < self@.len(),
        ensures
            r.0@ == self@[i as int].0,
            r.1@ == self@[i as int].1,
    {
        let (k, v) = &self.entries[i];
        (k, &**v)
    }

    /// Binds `k` to `v`, replacing the value of a key that is already present.
    #[verifier::rlimit(30)]
    pub fn insert(&mut self, k: MalVal, v: Box<Expr>)
        ensures
            final(self)@ == map_insert(old(self)@, k@, (*v)@),
            keys_unique(final(self)@),
    {
        proof {
            use_type_invariant(&*self);
        }
        let ghost old_view = self@;
        let mut entries: Vec<(MalVal, Box<Expr>)> = Vec::new();
        std::mem::swap(&mut entries, &mut self.entries);
        let n = entries.len();
        let mut i: usize = 0;
        let mut found = false;
        while i < n && !found
            invariant
                n == entries@.len(),
                old_view == map_view(MalMap { entries }),
                keys_unique(old_view),
                i <= n,
                found ==> i < n && old_view[i as int].0 == k@,
                forall|j: int| 0 <= j < i ==> old_view[j].0 != k@,
            decreases n - i + (if found { 0int } else { 1int }),
        {
            if entries[i].0.same(&k) {
                found = true;
            } else {
                i += 1;
            }
        }
        if found {
            entries.set(i, (k, v));
            proof {
                let ki = key_index(old_view, k@);
                assert(ki is Some);
                assert(ki->0 == i as int);
                assert(map_view(MalMap { entries }) =~= old_view.update(i as int, (k@, (*v)@)));
            }
        } else {
            entries.push((k, v));
            proof {
                assert(key_index(old_view, k@) is None);
                assert(map_view(MalMap { entries }) =~= old_view.push((k@, (*v)@)));
            }
        }
        self.entries = entries;
    }
}

} // verus!

verus! {



/// The views of a sequence of expressions.
pub open spec fn seq_view(es: Seq<Expr>) -> Seq<ExprView> {
    es.map_values(|e: Expr| e@)
}

/// How an expression is displayed: collections with their elements separated by single
/// spaces, maps as `{k v k v}`, quoted forms as `(quote x)` and the like.
pub open spec fn display_expr(e: ExprView) -> Seq<char>
    decreases e,
{
    match e {
        ExprView::Value(v) => display_val(v),
        ExprView::List(es) => seq!['('] + display_exprs(es) + seq![')'],
        ExprView::Vector(es) => seq!['['] + display_exprs(es) + seq![']'],
        ExprView::HashMap(ps) => seq!['{'] + display_pairs(ps) + seq!['}'],
        ExprView::Quoted(k, x) => quote_open(k) + display_expr(*x) + seq![')'],
    }
}

/// The displayed elements, separated by single spaces.
pub open spec fn display_exprs(es: Seq<ExprView>) -> Seq<char>
    decreases es,
{
    if es.len() == 0 {
        seq![]
    } else if es.len() == 1 {
        display_expr(es[0])
    } else {
        display_exprs(es.drop_last()) + seq![' '] + display_expr(es.last())
    }
}

/// The displayed entries `k v`, separated by single spaces.
pub open spec fn display_pairs(ps: Seq<(ValView, ExprView)>) -> Seq<char>
    decreases ps,
{
    if ps.len() == 0 {
        seq![]
    } else if ps.len() == 1 {
        display_val(ps[0].0) + seq![' '] + display_expr(ps[0].1)
    } else {
        display_pairs(ps.drop_last()) + seq![' '] + display_val(ps.last().0) + seq![' ']
            + display_expr(ps.last().1)
    }
}

/// The integer in an expression, or the error that `as_i64` reports for anything else.
pub open spec fn expr_as_i64(e: ExprView) -> Result<i64, ErrorView> {
    match e {
        ExprView::Value(v) => val_as_i64(v),
        _ => Err(ErrorView::TypeError("Wanted: i64, Got: "@ + display_expr(e))),
    }
}

fn push_quote_open(out: &mut String, k: QuoteKind)
    ensures
        final(out)@ == old(out)@ + quote_open(k),
{
    match k {
        QuoteKind::Quote => out.append("(quote "),
        QuoteKind::Unquote => out.append("(unquote "),
        QuoteKind::Quasi => out.append("(quasiquote "),
        QuoteKind::SpliceUnquote => out.append("(splice-unquote "),
    }
}

impl Expr {
    pub fn number(n: i64) -> (r: Self)
        ensures
            r@ == ExprView::Value(ValView::Number(n)),
    {
        Expr::Value(MalVal::number(n))
    }

    pub fn symbol(s: String) -> (r: Self)
        ensures
            r@ == ExprView::Value(ValView::Symbol(s@)),
    {
        Expr::Value(MalVal::symbol(s))
    }

    pub fn builtin_symbol(s: BuiltIn) -> (r: Self)
        ensures
            r@ == ExprView::Value(ValView::BSymbol(s)),
    {
        Expr::Value(MalVal::builtin_symbol(s))
    }

    pub fn string(s: String) -> (r: Self)
        ensures
            r@ == ExprView::Value(ValView::Str(s@)),
    {
        Expr::Value(MalVal::string(s))
    }

    pub fn keyword(s: String) -> (r: Self)
        ensures
            r@ == ExprView::Value(ValView::Keyword(s@)),
    {
        Expr::Value(MalVal::keyword(s))
    }

    /// The expressions, each in a box, in the same order.
    fn boxed(es: Vec<Expr>) -> (r: Vec<Box<Expr>>)
        ensures
            exprs_view(r@) == seq_view(es@),
    {
        let mut es = es;
        let ghost orig = seq_view(es@);
        let mut rev: Vec<Box<Expr>> = Vec::new();
        while es.len() > 0
            invariant
                orig.len() == es@.len() + rev@.len(),
                forall|i: int| 0 <= i < es@.len() ==> #[trigger] es@[i]@ == orig[i],
                forall|i: int|
                    0 <= i < rev@.len() ==> (*#[trigger] rev@[i])@ == orig[orig.len() - 1 - i],
            decreases es.len(),
        {
            let e = es.pop().unwrap();
            rev.push(Box::new(e));
        }
        let mut out: Vec<Box<Expr>> = Vec::new();
        while rev.len() > 0
            invariant
                orig.len() == out@.len() + rev@.len(),
                forall|i: int|
                    0 <= i < rev@.len() ==> (*#[trigger] rev@[i])@ == orig[orig.len() - 1 - i],
                forall|i: int| 0 <= i < out@.len() ==> (*#[trigger] out@[i])@ == orig[i],
            decreases rev.len(),
        {
            let e = rev.pop().unwrap();
            out.push(e);
        }
        proof {
            assert(exprs_view(out@) =~= orig);
        }
        out
    }

    /// A list of the given expressions.
    pub fn list(es: Vec<Expr>) -> (r: Self)
        ensures
            r@ == ExprView::List(seq_view(es@)),
    {
        let r = Expr::Container(MalContainer::List(Self::boxed(es)));
        proof {
            lemma_expr_view(r);
        }
        r
    }

    /// A vector of the given expressions.
    pub fn vector(es: Vec<Expr>) -> (r: Self)
        ensures
            r@ == ExprView::Vector(seq_view(es@)),
    {
        let r = Expr::Container(MalContainer::Vector(Self::boxed(es)));
        proof {
            lemma_expr_view(r);
        }
        r
    }

    /// A map expression.
    pub fn hash_map(es: MalMap) -> (r: Self)
        ensures
            r@ == ExprView::HashMap(es@),
    {
        Expr::Container(MalContainer::HashMap(es))
    }

    pub fn quote(expr: Expr) -> (r: Self)
        ensures
            r@ == ExprView::Quoted(QuoteKind::Quote, Box::new(expr@)),
    {
        Expr::Quoted(QuoteKind::Quote, Box::new(expr))
    }

    pub fn quasi(expr: Expr) -> (r: Self)
        ensures
            r@ == ExprView::Quoted(QuoteKind::Quasi, Box::new(expr@)),
    {
        Expr::Quoted(QuoteKind::Quasi, Box::new(expr))
    }

    pub fn unquote(expr: Expr) -> (r: Self)
        ensures
            r@ == ExprView::Quoted(QuoteKind::Unquote, Box::new(expr@)),
    {
        Expr::Quoted(QuoteKind::Unquote, Box::new(expr))
    }

    pub fn splice_unquote(expr: Expr) -> (r: Self)
        ensures
            r@ == ExprView::Quoted(QuoteKind::SpliceUnquote, Box::new(expr@)),
    {
        Expr::Quoted(QuoteKind::SpliceUnquote, Box::new(expr))
    }

    /// Appends the displayed text of the expression to `out`.
    #[verifier::rlimit(30)]
    pub fn push_display(&self, out: &mut String)
        ensures
            final(out)@ == old(out)@ + display_expr(self@),
        decreases self, 1nat,
    {
        match self {
            Expr::Value(v) => v.push_display(out),
            Expr::Container(MalContainer::List(es)) => {
                proof { reveal_strlit("("); reveal_strlit(")"); }
                out.append("(");
                Self::push_display_all(self, es, out);
                out.append(")");
                proof {
                    lemma_expr_view(*self);
                    assert(out@ =~= old(out)@ + display_expr(self@));
                }
            },
            Expr::Container(MalContainer::Vector(es)) => {
                proof { reveal_strlit("["); reveal_strlit("]"); }
                out.append("[");
                Self::push_display_all(self, es, out);
                out.append("]");
                proof {
                    lemma_expr_view(*self);
                    assert(out@ =~= old(out)@ + display_expr(self@));
                }
            },
            Expr::Container(MalContainer::HashMap(m)) => {
                proof { reveal_strlit("{"); reveal_strlit("}"); }
                out.append("{");
                Self::push_display_map(self, m, out);
                out.append("}");
                proof {
                    lemma_expr_view(*self);
                    assert(out@ =~= old(out)@ + display_expr(self@));
                }
            },
            Expr::Quoted(k, e) => {
                proof { reveal_strlit(")"); }
                push_quote_open(out, *k);
                e.push_display(out);
                out.append(")");
                proof {
                    lemma_expr_view(*self);
                    assert(out@ =~= old(out)@ + display_expr(self@));
                }
            },
        }
    }

    #[verifier::rlimit(30)]
    fn push_display_all(whole: &Expr, es: &Vec<Box<Expr>>, out: &mut String)
        requires
            *whole == Expr::Container(MalContainer::List(*es)) || *whole == Expr::Container(
                MalContainer::Vector(*es),
            ),
        ensures
            final(out)@ == old(out)@ + display_exprs(exprs_view(es@)),
        decreases whole, 0nat,
    {
        let ghost views = exprs_view(es@);
        let n = es.len();
        let mut i: usize = 0;
        proof {
            assert(views.take(0) =~= Seq::<ExprView>::empty());
        }
        while i < n
            invariant
                n == es@.len(),
                views == exprs_view(es@),
                i <= n,
                *whole == Expr::Container(MalContainer::List(*es)) || *whole == Expr::Container(
                    MalContainer::Vector(*es),
                ),
                out@ == old(out)@ + display_exprs(views.take(i as int)),
            decreases n - i,
        {
            if i > 0 {
                proof { reveal_strlit(" "); }
                out.append(" ");
            }
            proof {
                let c = (*whole)->Container_0;
                assert(decreases_to!(*whole => c));
                if c is List {
                    assert(decreases_to!(c => c->List_0));
                } else {
                    assert(decreases_to!(c => c->Vector_0));
                }
                assert(decreases_to!(*es => es@));
                assert(decreases_to!(es@ => es@[i as int]));
            }
            es[i].push_display(out);
            proof {
                let t = views.take(i + 1);
                assert(t.drop_last() =~= views.take(i as int));
                assert(t.last() == views[i as int]);
            }
            i += 1;
        }
        proof {
            assert(views.take(n as int) =~= views);
        }
    }

    #[verifier::rlimit(30)]
    fn push_display_map(whole: &Expr, m: &MalMap, out: &mut String)
        requires
            *whole == Expr::Container(MalContainer::HashMap(*m)),
        ensures
            final(out)@ == old(out)@ + display_pairs(m@),
        decreases whole, 0nat,
    {
        let ghost views = m@;
        let n = m.len();
        let mut i: usize = 0;
        proof {
            assert(views.take(0) =~= Seq::<(ValView, ExprView)>::empty());
        }
        while i < n
            invariant
                n == views.len(),
                views == m@,
                i <= n,
                *whole == Expr::Container(MalContainer::HashMap(*m)),
                out@ == old(out)@ + display_pairs(views.take(i as int)),
            decreases n - i,
        {
            proof { reveal_strlit(" "); }
            if i > 0 {
                out.append(" ");
            }
            let (k, v) = &m.entries[i];
            k.push_display(out);
            out.append(" ");
            proof {
                let c = (*whole)->Container_0;
                assert(decreases_to!(*whole => c));
                assert(decreases_to!(c => c->HashMap_0));
                assert(decreases_to!(*m => m.entries));
                assert(decreases_to!(m.entries => m.entries@));
                assert(decreases_to!(m.entries@ => m.entries@[i as int]));
                assert(decreases_to!(m.entries@[i as int] => m.entries@[i as int].1));

            }
            v.push_display(out);
            proof {
                let t = views.take(i + 1);
                assert(t.drop_last() =~= views.take(i as int));
                assert(t.last() == views[i as int]);
            }
            i += 1;
        }
        proof {
            assert(views.take(n as int) =~= views);
        }
    }

    /// The displayed text of the expression (see `display_expr`).
    pub fn to_string(&self) -> (r: String)
        ensures
            r@ == display_expr(self@),
    {
        let mut s = String::new();
        self.push_display(&mut s);
        proof {
            assert(s@ =~= display_expr(self@));
        }
        s
    }

    /// The integer in a `Number` value; anything else is an error that names it.
    pub fn as_i64(&self) -> (r: MalResult<i64>)
        ensures
            match expr_as_i64(self@) {
                Ok(n) => r == Ok::<i64, MalError>(n),
                Err(e) => fails_with(r, e),
            },
    {
        match self {
            Expr::Value(v) => v.as_i64(),
            _ => {
                let mut m = String::from_str("Wanted: i64, Got: ");
                self.push_display(&mut m);
                MalError::type_error(m.as_str())
            },
        }
    }
}

} // verus!

verus! {

// ------------------------------------------------------------------------------------------
// Equality and copies of expressions
// ------------------------------------------------------------------------------------------

/// Whether two expressions are equal: values by value, lists and vectors element by
/// element, maps by their entries whatever the order of their keys, quoted forms by kind
/// and body.
pub open spec fn expr_equiv(a: ExprView, b: ExprView) -> bool
    decreases a,
{
    match a {
        ExprView::Value(x) => b == ExprView::Value(x),
        ExprView::List(xs) => match b {
            ExprView::List(ys) => exprs_equiv(xs, ys),
            _ => false,
        },
        ExprView::Vector(xs) => match b {
            ExprView::Vector(ys) => exprs_equiv(xs, ys),
            _ => false,
        },
        ExprView::HashMap(ps) => match b {
            ExprView::HashMap(qs) => ps.len() == qs.len() && entries_found(ps, qs),
            _ => false,
        },
        ExprView::Quoted(k, x) => match b {
            ExprView::Quoted(l, y) => k == l && expr_equiv(*x, *y),
            _ => false,
        },
    }
}

/// The two sequences have the same length and equal elements, position by position.
pub open spec fn exprs_equiv(xs: Seq<ExprView>, ys: Seq<ExprView>) -> bool
    decreases xs,
{
    if xs.len() == 0 {
        ys.len() == 0
    } else {
        ys.len() > 0 && exprs_equiv(xs.drop_last(), ys.drop_last()) && expr_equiv(
            xs.last(),
            ys.last(),
        )
    }
}

/// Each key of `ps` is bound in `qs` to a value equal to the one it has in `ps`.
pub open spec fn entries_found(ps: Seq<(ValView, ExprView)>, qs: Seq<(ValView, ExprView)>) -> bool
    decreases ps,
{
    if ps.len() == 0 {
        true
    } else {
        entries_found(ps.drop_last(), qs) && match map_lookup(qs, ps.last().0) {
            Some(w) => expr_equiv(ps.last().1, w),
            None => false,
        }
    }
}

/// Element-wise equality, stated position by position.
pub proof fn lemma_exprs_equiv(xs: Seq<ExprView>, ys: Seq<ExprView>)
    ensures
        exprs_equiv(xs, ys) == (xs.len() == ys.len() && forall|i: int|
            0 <= i < xs.len() ==> #[trigger] expr_equiv(xs[i], ys[i])),
    decreases xs.len(),
{
    if xs.len() > 0 && ys.len() > 0 {
        let xd = xs.drop_last();
        let yd = ys.drop_last();
        lemma_exprs_equiv(xd, yd);
        if exprs_equiv(xs, ys) {
            assert forall|i: int| 0 <= i < xs.len() implies #[trigger] expr_equiv(xs[i], ys[i]) by {
                if i < xs.len() - 1 {
                    assert(xd[i] == xs[i] && yd[i] == ys[i]);
                    assert(expr_equiv(xd[i], yd[i]));
                }
            }
        }
        if xs.len() == ys.len() && forall|i: int|
            0 <= i < xs.len() ==> #[trigger] expr_equiv(xs[i], ys[i]) {
            assert forall|i: int| 0 <= i < xd.len() implies #[trigger] expr_equiv(xd[i], yd[i]) by {
                assert(xd[i] == xs[i] && yd[i] == ys[i]);
                assert(expr_equiv(xs[i], ys[i]));
            }
            assert(expr_equiv(xs[xs.len() - 1], ys[ys.len() - 1]));
        }
    }
}

/// Finding the entries of `ps` in `qs`, stated entry by entry.
pub proof fn lemma_entries_found(ps: Seq<(ValView, ExprView)>, qs: Seq<(ValView, ExprView)>)
    ensures
        entries_found(ps, qs) == forall|i: int|
            #![trigger ps[i]]
            0 <= i < ps.len() ==> map_lookup(qs, ps[i].0) is Some && expr_equiv(
                ps[i].1,
                map_lookup(qs, ps[i].0)->0,
            ),
    decreases ps.len(),
{
    if ps.len() > 0 {
        let pd = ps.drop_last();
        lemma_entries_found(pd, qs);
        if entries_found(ps, qs) {
            assert forall|i: int|
                #![trigger ps[i]]
                0 <= i < ps.len() implies map_lookup(qs, ps[i].0) is Some && expr_equiv(
                    ps[i].1,
                    map_lookup(qs, ps[i].0)->0,
                ) by {
                if i < ps.len() - 1 {
                    assert(pd[i] == ps[i]);
                }
            }
        }
        if forall|i: int|
            #![trigger ps[i]]
            0 <= i < ps.len() ==> map_lookup(qs, ps[i].0) is Some && expr_equiv(
                ps[i].1,
                map_lookup(qs, ps[i].0)->0,
            ) {
            assert forall|i: int|
                #![trigger pd[i]]
                0 <= i < pd.len() implies map_lookup(qs, pd[i].0) is Some && expr_equiv(
                    pd[i].1,
                    map_lookup(qs, pd[i].0)->0,
                ) by {
                assert(pd[i] == ps[i]);
            }
            assert(ps[ps.len() - 1] == ps.last());
        }
    }
}

impl MalMap {
    /// The value bound to `k`, if any.
    pub fn get(&self, k: &MalVal) -> (r: Option<&Expr>)
        ensures
            match map_lookup(self@, k@) {
                Some(w) => r is Some && r->0@ == w,
                None => r is None,
            },
    {
        proof {
            use_type_invariant(self);
        }
        let n = self.entries.len();
        let mut i: usize = 0;
        while i < n
            invariant
                n == self@.len(),
                keys_unique(self@),
                i <= n,
                forall|j: int| 0 <= j < i ==> self@[j].0 != k@,
            decreases n - i,
        {
            if self.entries[i].0.same(k) {
                proof {
                    assert(self@[i as int].0 == k@);
                    let ki = key_index(self@, k@);
                    assert(ki->0 == i as int);
                }
                return Some(&*self.entries[i].1);
            }
            i += 1;
        }
        None
    }

    /// Whether the two maps bind the same keys to equal values (see `expr_equiv`).
    fn equals(&self, other: &MalMap) -> (r: bool)
        ensures
            r == expr_equiv(ExprView::HashMap(self@), ExprView::HashMap(other@)),
        decreases self,
    {
        if self.len() != other.len() {
            return false;
        }
        let n = self.len();
        let mut i: usize = 0;
        while i < n
            invariant
                n == self@.len(),
                n == other@.len(),
                i <= n,
                forall|j: int|
                    #![trigger self@[j]]
                    0 <= j < i ==> map_lookup(other@, self@[j].0) is Some && expr_equiv(
                        self@[j].1,
                        map_lookup(other@, self@[j].0)->0,
                    ),
            decreases n - i,
        {
            let (k, v) = &self.entries[i];
            proof {
                assert(self@[i as int] == (k@, (**v)@));
            }
            match other.get(k) {
                None => {
                    proof {
                        lemma_entries_found(self@, other@);
                    }
                    return false;
                },
                Some(w) => {
                    proof {
                        assert(decreases_to!(*self => self.entries));
                        assert(decreases_to!(self.entries => self.entries@));
                        assert(decreases_to!(self.entries@ => self.entries@[i as int]));
                        assert(decreases_to!(self.entries@[i as int] => self.entries@[i as int].1));
                    }
                    if !v.equals(w) {
                        proof {
                            lemma_entries_found(self@, other@);
                        }
                        return false;
                    }
                },
            }
            i += 1;
        }
        proof {
            lemma_entries_found(self@, other@);
        }
        true
    }

    /// A copy of the map with equal keys and values.
    fn copy(&self) -> (r: MalMap)
        ensures
            r@ == self@,
        decreases self,
    {
        proof {
            use_type_invariant(self);
        }
        let n = self.entries.len();
        let mut out: Vec<(MalVal, Box<Expr>)> = Vec::new();
        let mut i: usize = 0;
        while i < n
            invariant
                n == self@.len(),
                i <= n,
                out@.len() == i,
                forall|j: int|
                    0 <= j < i ==> (#[trigger] out@[j]).0@ == self@[j].0 && (*out@[j].1)@
                        == self@[j].1,
            decreases n - i,
        {
            let (k, v) = &self.entries[i];
            proof {
                assert(self@[i as int] == (k@, (**v)@));
                assert(decreases_to!(*self => self.entries));
                assert(decreases_to!(self.entries => self.entries@));
                assert(decreases_to!(self.entries@ => self.entries@[i as int]));
                assert(decreases_to!(self.entries@[i as int] => self.entries@[i as int].1));
            }
            let c = v.copy();
            out.push((k.copy(), Box::new(c)));
            i += 1;
        }
        proof {
            assert(map_view(MalMap { entries: out }) =~= self@);
        }
        MalMap { entries: out }
    }
}

impl Expr {
    /// Whether the two expressions are equal (see `expr_equiv`).
    pub fn equals(&self, other: &Expr) -> (r: bool)
        ensures
            r == expr_equiv(self@, other@),
        decreases self,
    {
        proof {
            lemma_expr_view(*self);
            lemma_expr_view(*other);
        }
        match self {
            Expr::Value(x) => match other {
                Expr::Value(y) => x.same(y),
                _ => false,
            },
            Expr::Container(MalContainer::List(xs)) => match other {
                Expr::Container(MalContainer::List(ys)) => {
                    proof {
                        lemma_exprs_equiv(exprs_view(xs@), exprs_view(ys@));
                    }
                    Self::equals_all(xs, ys)
                },
                _ => false,
            },
            Expr::Container(MalContainer::Vector(xs)) => match other {
                Expr::Container(MalContainer::Vector(ys)) => {
                    proof {
                        lemma_exprs_equiv(exprs_view(xs@), exprs_view(ys@));
                    }
                    Self::equals_all(xs, ys)
                },
                _ => false,
            },
            Expr::Container(MalContainer::HashMap(m)) => match other {
                Expr::Container(MalContainer::HashMap(n)) => m.equals(n),
                _ => false,
            },
            Expr::Quoted(k, x) => match other {
                Expr::Quoted(l, y) => *k == *l && x.equals(y),
                _ => false,
            },
        }
    }

    fn equals_all(xs: &Vec<Box<Expr>>, ys: &Vec<Box<Expr>>) -> (r: bool)
        ensures
            r == (exprs_view(xs@).len() == exprs_view(ys@).len() && forall|i: int|
                0 <= i < exprs_view(xs@).len() ==> #[trigger] expr_equiv(
                    exprs_view(xs@)[i],
                    exprs_view(ys@)[i],
                )),
        decreases xs,
    {
        if xs.len() != ys.len() {
            return false;
        }
        let n = xs.len();
        let mut i: usize = 0;
        while i < n
            invariant
                n == xs@.len(),
                n == ys@.len(),
                i <= n,
                forall|j: int|
                    0 <= j < i ==> #[trigger] expr_equiv(exprs_view(xs@)[j], exprs_view(ys@)[j]),
            decreases n - i,
        {
            proof {
                assert(decreases_to!(*xs => xs@));
                assert(decreases_to!(xs@ => xs@[i as int]));
            }
            let same = xs[i].equals(&ys[i]);
            proof {
                assert(exprs_view(xs@)[i as int] == (*xs@[i as int])@);
                assert(exprs_view(ys@)[i as int] == (*ys@[i as int])@);
            }
            if !same {
                return false;
            }
            i += 1;
        }
        true
    }

    /// A copy of the expression with an equal view.
    pub fn copy(&self) -> (r: Expr)
        ensures
            r@ == self@,
        decreases self,
    {
        proof {
            lemma_expr_view(*self);
        }
        let r = match self {
            Expr::Value(v) => Expr::Value(v.copy()),
            Expr::Container(MalContainer::List(xs)) => Expr::Container(
                MalContainer::List(Self::copy_all(xs)),
            ),
            Expr::Container(MalContainer::Vector(xs)) => Expr::Container(
                MalContainer::Vector(Self::copy_all(xs)),
            ),
            Expr::Container(MalContainer::HashMap(m)) => Expr::Container(
                MalContainer::HashMap(m.copy()),
            ),
            Expr::Quoted(k, x) => Expr::Quoted(*k, Box::new(x.copy())),
        };
        proof {
            lemma_expr_view(r);
        }
        r
    }

    fn copy_all(xs: &Vec<Box<Expr>>) -> (r: Vec<Box<Expr>>)
        ensures
            exprs_view(r@) == exprs_view(xs@),
        decreases xs,
    {
        let n = xs.len();
        let mut out: Vec<Box<Expr>> = Vec::new();
        let mut i: usize = 0;
        while i < n
            invariant
                n == xs@.len(),
                i <= n,
                out@.len() == i,
                forall|j: int| 0 <= j < i ==> (*#[trigger] out@[j])@ == (*xs@[j])@,
            decreases n - i,
        {
            proof {
                assert(decreases_to!(*xs => xs@));
                assert(decreases_to!(xs@ => xs@[i as int]));
            }
            let c = xs[i].copy();
            out.push(Box::new(c));
            i += 1;
        }
        proof {
            assert(exprs_view(out@) =~= exprs_view(xs@));
        }
        out
    }
}

impl PartialEq for Expr {
    fn eq(&self, other: &Self) -> (r: bool) {
        self.equals(other)
    }
}

impl vstd::std_specs::cmp::PartialEqSpecImpl for Expr {
    open spec fn obeys_eq_spec() -> bool {
        true
    }

    open spec fn eq_spec(&self, other: &Self) -> bool {
        expr_equiv(self@, other@)
    }
}

impl PartialEq for MalMap {
    fn eq(&self, other: &Self) -> (r: bool) {
        self.equals(other)
    }
}

impl vstd::std_specs::cmp::PartialEqSpecImpl for MalMap {
    open spec fn obeys_eq_spec() -> bool {
        true
    }

    open spec fn eq_spec(&self, other: &Self) -> bool {
        expr_equiv(ExprView::HashMap(self@), ExprView::HashMap(other@))
    }
}

impl Clone for Expr {
    fn clone(&self) -> (r: Self)
        ensures
            r@ == self@,
    {
        self.copy()
    }
}

impl Clone for MalMap {
    fn clone(&self) -> (r: Self)
        ensures
            r@ == self@,
    {
        self.copy()
    }
}

impl Clone for MalContainer {
    fn clone(&self) -> (r: Self)
        ensures
            Expr::Container(r)@ == Expr::Container(*self)@,
    {
        proof {
            lemma_expr_view(Expr::Container(*self));
        }
        let r = match self {
            MalContainer::List(xs) => MalContainer::List(Expr::copy_all(xs)),
            MalContainer::Vector(xs) => MalContainer::Vector(Expr::copy_all(xs)),
            MalContainer::HashMap(m) => MalContainer::HashMap(m.copy()),
        };
        proof {
            lemma_expr_view(Expr::Container(r));
        }
        r
    }
}

} // verus!
