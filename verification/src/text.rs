//! Decimal rendering of integers, shared by the printer and the error messages.

use vstd::prelude::*;

verus! {

/// The character of a decimal digit `d < 10`.
pub open spec fn digit_char(d: nat) -> char {
    if d == 0 { '0' }
    else if d == 1 { '1' }
    else if d == 2 { '2' }
    else if d == 3 { '3' }
    else if d == 4 { '4' }
    else if d == 5 { '5' }
    else if d == 6 { '6' }
    else if d == 7 { '7' }
    else if d == 8 { '8' }
    else { '9' }
}

/// Decimal digits of a natural number, most significant first, without leading zeros.
pub open spec fn nat_decimal(n: nat) -> Seq<char>
    decreases n,
{
    if n < 10 {
        seq![digit_char(n)]
    } else {
        nat_decimal(n / 10).push(digit_char(n % 10))
    }
}

/// Decimal text of an integer, as Rust's `Display` writes it: a `-` before negative values.
pub open spec fn int_decimal(n: int) -> Seq<char> {
    if n < 0 {
        seq!['-'] + nat_decimal((-n) as nat)
    } else {
        nat_decimal(n as nat)
    }
}

fn digit_str(d: u64) -> (r: &'static str)
    requires
        d < 10,
    ensures
        r@ == seq![digit_char(d as nat)],
{
    if d == 0 {
        proof { reveal_strlit("0"); }
        "0"
    } else if d == 1 {
        proof { reveal_strlit("1"); }
        "1"
    } else if d == 2 {
        proof { reveal_strlit("2"); }
        "2"
    } else if d == 3 {
        proof { reveal_strlit("3"); }
        "3"
    } else if d == 4 {
        proof { reveal_strlit("4"); }
        "4"
    } else if d == 5 {
        proof { reveal_strlit("5"); }
        "5"
    } else if d == 6 {
        proof { reveal_strlit("6"); }
        "6"
    } else if d == 7 {
        proof { reveal_strlit("7"); }
        "7"
    } else if d == 8 {
        proof { reveal_strlit("8"); }
        "8"
    } else {
        proof { reveal_strlit("9"); }
        "9"
    }
}

/// Appends the decimal digits of `n` to `out`.
fn push_nat_decimal(out: &mut String, n: u64)
    ensures
        final(out)@ == old(out)@ + nat_decimal(n as nat),
    decreases n,
{
    if n < 10 {
        out.append(digit_str(n));
    } else {
        push_nat_decimal(out, n / 10);
        out.append(digit_str(n % 10));
        proof {
            assert(old(out)@ + nat_decimal(n as nat) =~= old(out)@ + nat_decimal((n / 10) as nat)
                + seq![digit_char((n % 10) as nat)]);
        }
    }
}

/// Appends the decimal text of `n` to `out`, as `format!("{}", n)` writes it.
pub fn push_i64_decimal(out: &mut String, n: i64)
    ensures
        final(out)@ == old(out)@ + int_decimal(n as int),
{
    if n < 0 {
        proof { reveal_strlit("-"); }
        out.append("-");
        let m: u64 = if n == i64::MIN { 9223372036854775808u64 } else { (-n) as u64 };
        push_nat_decimal(out, m);
        proof {
            assert(old(out)@ + int_decimal(n as int) =~= old(out)@ + seq!['-'] + nat_decimal(
                m as nat,
            ));
        }
    } else {
        push_nat_decimal(out, n as u64);
    }
}

/// The decimal text of `n`, as `n.to_string()` gives it.
pub fn i64_to_string(n: i64) -> (r: String)
    ensures
        r@ == int_decimal(n as int),
{
    let mut s = String::new();
    push_i64_decimal(&mut s, n);
    proof {
        assert(s@ =~= int_decimal(n as int));
    }
    s
}

} // verus!
