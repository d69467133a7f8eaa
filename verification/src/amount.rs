use vstd::prelude::*;
use vstd::arithmetic::div_mod::{
    lemma_div_is_ordered, lemma_fundamental_div_mod, lemma_fundamental_div_mod_converse,
};
use crate::error::MarketError;

verus! {

/// The largest amount that can be held.
pub open spec fn max_amount() -> int {
    i128::MAX as int
}

/// Sum of two amounts. A negative operand is no amount; a sum beyond the
/// largest amount is refused, never wrapped.
pub fn add(a: i128, b: i128) -> (r: Result<i128, MarketError>)
    ensures
        (a < 0 || b < 0) <==> r == Err::<i128, MarketError>(MarketError::InvalidAmount),
        (a >= 0 && b >= 0 && a + b > max_amount()) <==> r == Err::<i128, MarketError>(
            MarketError::Overflow,
        ),
        (a >= 0 && b >= 0 && a + b <= max_amount()) <==> r == Ok::<i128, MarketError>(
            (a + b) as i128,
        ),
{
    if a < 0 || b < 0 {
        return Err(MarketError::InvalidAmount);
    }
    match a.checked_add(b) {
        Some(s) => Ok(s),
        None => Err(MarketError::Overflow),
    }
}

/// `a * b` divided by `c`, rounded down, as a mathematical integer.
pub open spec fn mul_div_floor(a: int, b: int, c: int) -> int {
    (a * b) / c
}

/// A product of naturals does not shrink when one factor grows.
proof fn lemma_product_grows(x: int, y: int, b: int)
    by (nonlinear_arith)
    requires
        0 <= x <= y,
        0 <= b,
    ensures
        0 <= x * b <= y * b,
{
}

/// One step of the long division: from the quotient and remainder of
/// `half * b` to those of `(2 * half + bit) * b`.
proof fn lemma_double_step(
    half: int,
    bit: int,
    b: int,
    c: int,
    q: int,
    r: int,
    qb: int,
    rb: int,
    carry: int,
    rem: int,
)
    by (nonlinear_arith)
    requires
        half * b == q * c + r,
        b == c * qb + rb,
        2 * r + bit * rb == carry * c + rem,
        bit == 0 || bit == 1,
    ensures
        (2 * half + bit) * b == (2 * q + bit * qb + carry) * c + rem,
{
}

/// Quotient and remainder of `a * b` by `c`, found without forming the
/// product: the quotient for `a / 2` is doubled and corrected by the low bit.
fn mul_div_rem(a: u128, b: u128, c: u128) -> (r: Option<(u128, u128)>)
    requires
        c > 0,
    ensures
        match r {
            Some((q, rem)) => a * b == q * c + rem && rem < c,
            None => mul_div_floor(a as int, b as int, c as int) > u128::MAX,
        },
    decreases a,
{
    if a == 0 {
        assert(a * b == 0) by (nonlinear_arith)
            requires
                a == 0,
        ;
        return Some((0, 0));
    }
    let half: u128 = a / 2;
    let odd: bool = a % 2 == 1;
    let qb: u128 = b / c;
    let rb: u128 = b % c;
    proof {
        lemma_fundamental_div_mod(b as int, c as int);
    }
    match mul_div_rem(half, b, c) {
        None => {
            proof {
                lemma_product_grows(half as int, a as int, b as int);
                lemma_div_is_ordered(half * b, a * b, c as int);
            }
            None
        },
        Some((q, r)) => {
            let mut carry: u128 = 0;
            let mut rem: u128 = 0;
            if r >= c - r {
                rem = r - (c - r);
                carry = 1;
            } else {
                rem = r + r;
            }
            let mut extra: u128 = 0;
            if odd {
                if rem >= c - rb {
                    rem = rem - (c - rb);
                    carry = carry + 1;
                } else {
                    rem = rem + rb;
                }
                extra = qb;
            }
            let ghost bit: int = if odd { 1 } else { 0 };
            let ghost exact: int = 2 * q + extra + carry;
            proof {
                assert(bit * qb == extra) by (nonlinear_arith)
                    requires
                        (bit == 1 && extra == qb) || (bit == 0 && extra == 0),
                ;
                assert(2 * r + bit * rb == carry * c + rem) by (nonlinear_arith)
                    requires
                        (bit == 0 && (carry == 0 && rem == 2 * r || carry == 1 && rem == 2 * r - c))
                            || (bit == 1 && (carry == 0 && rem == 2 * r + rb || carry == 1 && rem
                            == 2 * r + rb - c || carry == 2 && rem == 2 * r + rb - 2 * c)),
                ;
                lemma_double_step(
                    half as int,
                    bit,
                    b as int,
                    c as int,
                    q as int,
                    r as int,
                    qb as int,
                    rb as int,
                    carry as int,
                    rem as int,
                );
                assert(a == 2 * half + bit);
                lemma_fundamental_div_mod_converse(a * b, c as int, exact, rem as int);
                assert(exact == mul_div_floor(a as int, b as int, c as int));
            }
            let doubled: u128 = match q.checked_mul(2) {
                Some(x) => x,
                None => {
                    return None;
                },
            };
            let with_extra: u128 = match doubled.checked_add(extra) {
                Some(x) => x,
                None => {
                    return None;
                },
            };
            match with_extra.checked_add(carry) {
                Some(x) => Some((x, rem)),
                None => None,
            }
        },
    }
}

/// `a * b / c` rounded down, exact whenever the quotient fits, whatever the
/// size of the product; `None` where the quotient itself does not fit.
pub fn mul_div(a: u128, b: u128, c: u128) -> (r: Option<u128>)
    requires
        c > 0,
    ensures
        mul_div_floor(a as int, b as int, c as int) <= u128::MAX ==> r == Some(
            mul_div_floor(a as int, b as int, c as int) as u128,
        ),
        mul_div_floor(a as int, b as int, c as int) > u128::MAX ==> r.is_none(),
{
    match mul_div_rem(a, b, c) {
        Some((q, rem)) => {
            proof {
                lemma_fundamental_div_mod_converse(a * b, c as int, q as int, rem as int);
            }
            Some(q)
        },
        None => None,
    }
}

} // verus!
