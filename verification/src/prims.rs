//! The arithmetic primitives.

use vstd::prelude::*;

use crate::types::{expr_as_i64, BuiltIn, ErrorView, Expr, ExprView, MalResult, ValView};

verus! {

/// The integer that `op` computes from `a` and `b`, or `None` where Rust's integer
/// arithmetic panics: on overflow, and for division by zero.
pub open spec fn arith(op: BuiltIn, a: i64, b: i64) -> Option<i64> {
    match op {
        BuiltIn::Add => if i64::MIN <= a + b <= i64::MAX {
            Some((a + b) as i64)
        } else {
            None
        },
        BuiltIn::Sub => if i64::MIN <= a - b <= i64::MAX {
            Some((a - b) as i64)
        } else {
            None
        },
        BuiltIn::Mul => if i64::MIN <= a * b <= i64::MAX {
            Some((a * b) as i64)
        } else {
            None
        },
        BuiltIn::Div => a.checked_div(b),
    }
}

/// The view of an evaluation result.
pub open spec fn result_view(r: MalResult<Expr>) -> Result<ExprView, ErrorView> {
    match r {
        Ok(e) => Ok(e@),
        Err(e) => Err(e@),
    }
}

/// The view of an outcome that may also be a panic (`None`).
pub open spec fn outcome_view(o: Option<MalResult<Expr>>) -> Option<Result<ExprView, ErrorView>> {
    match o {
        Some(r) => Some(result_view(r)),
        None => None,
    }
}

/// Applying the operator `op` to two expressions: both must be numbers, the left one is
/// checked first. `None` where the arithmetic panics.
pub open spec fn spec_binop(op: BuiltIn, l: ExprView, r: ExprView) -> Option<
    Result<ExprView, ErrorView>,
> {
    match expr_as_i64(l) {
        Err(e) => Some(Err(e)),
        Ok(a) => match expr_as_i64(r) {
            Err(e) => Some(Err(e)),
            Ok(b) => match arith(op, a, b) {
                Some(n) => Some(Ok(ExprView::Value(ValView::Number(n)))),
                None => None,
            },
        },
    }
}

/// `op` on two expressions; `None` exactly where the arithmetic would panic.
pub fn binop_checked(op: BuiltIn, l: &Expr, r: &Expr) -> (res: Option<MalResult<Expr>>)
    ensures
        outcome_view(res) == spec_binop(op, l@, r@),
{
    let li = match l.as_i64() {
        Ok(n) => n,
        Err(e) => return Some(Err(e)),
    };
    let lr = match r.as_i64() {
        Ok(n) => n,
        Err(e) => return Some(Err(e)),
    };
    let n = match op {
        BuiltIn::Add => li.checked_add(lr),
        BuiltIn::Sub => li.checked_sub(lr),
        BuiltIn::Mul => li.checked_mul(lr),
        BuiltIn::Div => li.checked_div(lr),
    };
    match n {
        Some(n) => Some(Ok(Expr::number(n))),
        None => None,
    }
}

/// Sum of two numbers.
pub fn builtin_add(l: Expr, r: Expr) -> (res: MalResult<Expr>)
    requires
        spec_binop(BuiltIn::Add, l@, r@) is Some,
    ensures
        Some(result_view(res)) == spec_binop(BuiltIn::Add, l@, r@),
{
    binop_checked(BuiltIn::Add, &l, &r).unwrap()
}

/// Difference of two numbers.
pub fn builtin_sub(l: Expr, r: Expr) -> (res: MalResult<Expr>)
    requires
        spec_binop(BuiltIn::Sub, l@, r@) is Some,
    ensures
        Some(result_view(res)) == spec_binop(BuiltIn::Sub, l@, r@),
{
    binop_checked(BuiltIn::Sub, &l, &r).unwrap()
}

/// Quotient of two numbers, rounded toward zero.
pub fn builtin_div(l: Expr, r: Expr) -> (res: MalResult<Expr>)
    requires
        spec_binop(BuiltIn::Div, l@, r@) is Some,
    ensures
        Some(result_view(res)) == spec_binop(BuiltIn::Div, l@, r@),
{
    binop_checked(BuiltIn::Div, &l, &r).unwrap()
}

/// Product of two numbers.
pub fn builtin_mul(l: Expr, r: Expr) -> (res: MalResult<Expr>)
    requires
        spec_binop(BuiltIn::Mul, l@, r@) is Some,
    ensures
        Some(result_view(res)) == spec_binop(BuiltIn::Mul, l@, r@),
{
    binop_checked(BuiltIn::Mul, &l, &r).unwrap()
}

} // verus!
