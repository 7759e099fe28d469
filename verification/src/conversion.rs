use crate::error::Error;
use vstd::prelude::*;

verus! {

/// `x` can be held in an `i128`.
pub open spec fn fits(x: int) -> bool {
    i128::MIN <= x <= i128::MAX
}

/// The quotient `p / d` rounded down, for `d > 0`.
pub open spec fn floor_div(p: int, d: int) -> int {
    p / d
}

/// The quotient `p / d` rounded up, for `d > 0`.
pub open spec fn ceil_div(p: int, d: int) -> int {
    if p % d == 0 {
        p / d
    } else {
        p / d + 1
    }
}

/// An executable result and its mathematical description say the same.
pub open spec fn agrees(r: Result<i128, Error>, expected: Result<int, Error>) -> bool {
    match r {
        Ok(x) => expected == Ok::<int, Error>(x as int),
        Err(e) => expected == Err::<int, Error>(e),
    }
}

/// `a * b / denom` rounded down: refused for a zero denominator, and for a
/// product that an `i128` cannot hold.
pub open spec fn mul_div_floor_spec(a: int, b: int, denom: int) -> Result<int, Error> {
    if denom == 0 {
        Err(Error::DivisionByZero)
    } else if !fits(a * b) {
        Err(Error::Overflow)
    } else {
        Ok(floor_div(a * b, denom))
    }
}

/// `a * b / denom` rounded up, refused as `mul_div_floor_spec` is.
pub open spec fn mul_div_ceil_spec(a: int, b: int, denom: int) -> Result<int, Error> {
    if denom == 0 {
        Err(Error::DivisionByZero)
    } else if !fits(a * b) {
        Err(Error::Overflow)
    } else {
        Ok(ceil_div(a * b, denom))
    }
}

/// Shares that `amount` units are priced at while `total_shares` shares stand
/// for a reserve of `underlying`: the amount's part of the shares, rounded up.
/// An empty ledger prices one share per unit. Shares over an empty reserve
/// cannot be priced.
pub open spec fn shares_from_rusd_spec(amount: int, total_shares: int, underlying: int) -> Result<
    int,
    Error,
> {
    if total_shares == 0 {
        Ok(amount)
    } else {
        mul_div_ceil_spec(amount, total_shares, underlying)
    }
}

/// Units that `shares` shares are worth while `total_shares` shares stand for
/// a reserve of `underlying`, as far as they can be computed: `rusd_value`,
/// unless the product of shares and reserve is beyond `i128`.
pub open spec fn rusd_from_shares_spec(shares: int, total_shares: int, underlying: int) -> Result<
    int,
    Error,
> {
    if total_shares == 0 || shares == 0 {
        Ok(0)
    } else {
        mul_div_floor_spec(shares, underlying, total_shares)
    }
}

/// What `shares` shares are worth, in units, while `total_shares` shares
/// stand for a reserve of `underlying`: their part of the reserve, rounded
/// down.
pub open spec fn rusd_value(shares: int, total_shares: int, underlying: int) -> int {
    if total_shares == 0 || shares == 0 {
        0
    } else {
        floor_div(shares * underlying, total_shares)
    }
}

/// Rounding down never gives more than the exact quotient, and misses it by
/// less than one.
pub proof fn lemma_floor_div_bounds(p: int, d: int)
    requires
        d > 0,
    ensures
        floor_div(p, d) * d <= p < (floor_div(p, d) + 1) * d,
{
    assert(p == d * (p / d) + p % d && 0 <= p % d < d) by (nonlinear_arith)
        requires
            d > 0,
    ;
    assert((p / d) * d == d * (p / d) && (p / d + 1) * d == d * (p / d) + d) by (nonlinear_arith);
}

/// Rounding up never gives less than the exact quotient, and exceeds it by
/// less than one.
pub proof fn lemma_ceil_div_bounds(p: int, d: int)
    requires
        d > 0,
    ensures
        (ceil_div(p, d) - 1) * d < p <= ceil_div(p, d) * d,
{
    assert(p == d * (p / d) + p % d && 0 <= p % d < d) by (nonlinear_arith)
        requires
            d > 0,
    ;
    assert((p / d) * d == d * (p / d) && (p / d + 1) * d == d * (p / d) + d && (p / d - 1) * d
        == d * (p / d) - d) by (nonlinear_arith);
}

/// Fails with `ZeroAmount` unless `amount` is positive.
pub fn require_positive_amount(amount: i128) -> (r: Result<(), Error>)
    ensures
        r == (if amount <= 0 {
            Err::<(), Error>(Error::ZeroAmount)
        } else {
            Ok::<(), Error>(())
        }),
{
    if amount <= 0 {
        Err(Error::ZeroAmount)
    } else {
        Ok(())
    }
}

/// Computes `a * b / denom`, rounded down.
pub fn mul_div_floor(a: i128, b: i128, denom: i128) -> (r: Result<i128, Error>)
    requires
        a >= 0,
        b >= 0,
        denom >= 0,
    ensures
        agrees(r, mul_div_floor_spec(a as int, b as int, denom as int)),
{
    if denom == 0 {
        return Err(Error::DivisionByZero);
    }
    match a.checked_mul(b) {
        None => Err(Error::Overflow),
        Some(prod) => {
            assert(a * b >= 0) by (nonlinear_arith)
                requires
                    a >= 0,
                    b >= 0,
            ;
            Ok(prod / denom)
        },
    }
}

/// Computes `a * b / denom`, rounded up.
pub fn mul_div_ceil(a: i128, b: i128, denom: i128) -> (r: Result<i128, Error>)
    requires
        a >= 0,
        b >= 0,
        denom >= 0,
    ensures
        agrees(r, mul_div_ceil_spec(a as int, b as int, denom as int)),
{
    if denom == 0 {
        return Err(Error::DivisionByZero);
    }
    match a.checked_mul(b) {
        None => Err(Error::Overflow),
        Some(prod) => {
            assert(a * b >= 0) by (nonlinear_arith)
                requires
                    a >= 0,
                    b >= 0,
            ;
            let div: i128 = prod / denom;
            if prod % denom == 0 {
                Ok(div)
            } else {
                assert(div < i128::MAX) by {
                    lemma_floor_div_bounds(prod as int, denom as int);
                    assert(denom >= 2);
                    assert(div * denom >= div * 2) by (nonlinear_arith)
                        requires
                            div >= 0,
                            denom >= 2,
                    ;
                }
                Ok(div + 1)
            }
        },
    }
}

/// Converts an amount of units into shares, rounding up.
pub fn shares_from_rusd(amount: i128, total_shares: i128, underlying: i128) -> (r: Result<
    i128,
    Error,
>)
    requires
        amount > 0,
        total_shares >= 0,
        underlying >= 0,
    ensures
        agrees(r, shares_from_rusd_spec(amount as int, total_shares as int, underlying as int)),
        total_shares == 0 ==> r == Ok::<i128, Error>(amount),
        total_shares > 0 ==> (r matches Ok(shares) ==> (shares - 1) * underlying < amount
            * total_shares <= shares * underlying),
{
    if total_shares == 0 {
        return Ok(amount);
    }
    if underlying == 0 {
        return Err(Error::DivisionByZero);
    }
    proof {
        lemma_ceil_div_bounds(amount * total_shares, underlying as int);
    }
    mul_div_ceil(amount, total_shares, underlying)
}

/// Converts a number of shares into units, rounding down.
pub fn rusd_from_shares(shares: i128, total_shares: i128, underlying: i128) -> (r: Result<
    i128,
    Error,
>)
    requires
        shares >= 0,
        total_shares >= 0,
        underlying >= 0,
    ensures
        agrees(r, rusd_from_shares_spec(shares as int, total_shares as int, underlying as int)),
        r matches Ok(units) ==> units == rusd_value(
            shares as int,
            total_shares as int,
            underlying as int,
        ),
        total_shares > 0 ==> (r matches Ok(units) ==> units * total_shares <= shares * underlying
            < (units + 1) * total_shares),
{
    if total_shares == 0 {
        return Ok(0);
    }
    proof {
        lemma_floor_div_bounds(shares * underlying, total_shares as int);
    }
    if shares == 0 {
        assert(0 * underlying == 0 && (0 + 1) * total_shares > 0);
        return Ok(0);
    }
    mul_div_floor(shares, underlying, total_shares)
}

} // verus!
