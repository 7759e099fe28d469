use crate::conversion::{
    agrees, require_positive_amount, rusd_from_shares, rusd_from_shares_spec, shares_from_rusd,
    shares_from_rusd_spec,
};
use crate::error::Error;
use vstd::prelude::*;

verus! {

/// The share balances of sender and receiver after a transfer.
#[derive(Clone, Copy, PartialEq, Eq, Debug, Structural)]
pub struct ShareMove {
    pub from_shares: i128,
    pub to_shares: i128,
}

/// A holder's shares and the total after a deposit.
#[derive(Clone, Copy, PartialEq, Eq, Debug, Structural)]
pub struct MintPlan {
    pub holder_shares: i128,
    pub total_shares: i128,
}

/// A holder's shares and the total after a withdrawal, and the units of the
/// reserve that are paid out.
#[derive(Clone, Copy, PartialEq, Eq, Debug, Structural)]
pub struct BurnPlan {
    pub holder_shares: i128,
    pub total_shares: i128,
    pub payout: i128,
}

/// What is left of `allowance` once `amount` is spent from it.
pub open spec fn spend_allowance_spec(allowance: int, amount: int) -> Result<int, Error> {
    if amount <= 0 {
        Err(Error::ZeroAmount)
    } else if allowance < amount {
        Err(Error::InsufficientAllowance)
    } else {
        Ok(allowance - amount)
    }
}

/// The share balances `(sender, receiver)` after `amount` units move. The
/// amount is priced in shares, rounded up, and that many shares leave the
/// sender, who must own them. Where sender and receiver are one holder,
/// `to_shares` is not looked at and the balance ends where it began.
pub open spec fn plan_transfer_spec(
    amount: int,
    total_shares: int,
    underlying: int,
    from_shares: int,
    to_shares: int,
    same_holder: bool,
) -> Result<(int, int), Error> {
    if amount <= 0 {
        Err(Error::ZeroAmount)
    } else {
        match shares_from_rusd_spec(amount, total_shares, underlying) {
            Err(e) => Err(e),
            Ok(moved) => {
                let rest = from_shares - moved;
                let base = if same_holder {
                    rest
                } else {
                    to_shares
                };
                if from_shares < moved {
                    Err(Error::InsufficientShares)
                } else if base + moved > i128::MAX {
                    Err(Error::Overflow)
                } else {
                    Ok((rest, base + moved))
                }
            },
        }
    }
}

/// The shares that a deposit of `amount` units creates. The reserve is read
/// after the deposit has arrived, so the price is taken against the reserve
/// less the deposit; a reserve that holds less than the deposit it has just
/// taken is refused. The first deposit into an empty ledger creates one share
/// per unit, whatever the reserve holds.
pub open spec fn minted_shares_spec(amount: int, total_shares: int, underlying_after: int) -> Result<
    int,
    Error,
> {
    if total_shares == 0 {
        Ok(amount)
    } else if underlying_after < amount {
        Err(Error::Overflow)
    } else {
        shares_from_rusd_spec(amount, total_shares, underlying_after - amount)
    }
}

/// The depositor's shares and the total, `(holder, total)`, after a deposit
/// of `amount` units: both grow by the shares created.
pub open spec fn plan_mint_spec(
    amount: int,
    total_shares: int,
    underlying_after: int,
    holder_shares: int,
) -> Result<(int, int), Error> {
    if amount <= 0 {
        Err(Error::ZeroAmount)
    } else {
        match minted_shares_spec(amount, total_shares, underlying_after) {
            Err(e) => Err(e),
            Ok(minted) => {
                if holder_shares + minted > i128::MAX || total_shares + minted > i128::MAX {
                    Err(Error::Overflow)
                } else {
                    Ok((holder_shares + minted, total_shares + minted))
                }
            },
        }
    }
}

/// The holder's shares, the total and the payout, `(holder, total, payout)`,
/// after a withdrawal of `amount` units. The amount is priced in shares,
/// rounded up; the payout is what those shares are worth, rounded down.
pub open spec fn plan_burn_spec(
    amount: int,
    total_shares: int,
    underlying: int,
    holder_shares: int,
) -> Result<(int, int, int), Error> {
    if amount <= 0 {
        Err(Error::ZeroAmount)
    } else {
        match shares_from_rusd_spec(amount, total_shares, underlying) {
            Err(e) => Err(e),
            Ok(burned) => {
                if holder_shares < burned {
                    Err(Error::InsufficientShares)
                } else {
                    match rusd_from_shares_spec(burned, total_shares, underlying) {
                        Err(e) => Err(e),
                        Ok(payout) => {
                            if total_shares < burned {
                                Err(Error::Overflow)
                            } else {
                                Ok((holder_shares - burned, total_shares - burned, payout))
                            }
                        },
                    }
                }
            },
        }
    }
}

/// Fails with `AlreadyInitialized` if the ledger has its configuration:
/// it is given once.
pub fn require_unconfigured(configured: bool) -> (r: Result<(), Error>)
    ensures
        r == (if configured {
            Err::<(), Error>(Error::AlreadyInitialized)
        } else {
            Ok::<(), Error>(())
        }),
{
    if configured {
        Err(Error::AlreadyInitialized)
    } else {
        Ok(())
    }
}

/// Fails with `NotInitialized` unless the ledger has its configuration.
pub fn require_configured(configured: bool) -> (r: Result<(), Error>)
    ensures
        r == (if configured {
            Ok::<(), Error>(())
        } else {
            Err::<(), Error>(Error::NotInitialized)
        }),
{
    if configured {
        Ok(())
    } else {
        Err(Error::NotInitialized)
    }
}

/// What is done to the place of a holder's shares or of an allowance when
/// its number changes.
#[derive(Clone, Copy, PartialEq, Eq, Debug, Structural)]
pub enum SlotWrite {
    /// Nothing is kept there any more.
    Clear,
    /// The number is kept there.
    Keep(i128),
}

/// How a holder's shares or an allowance of `value` is kept: a zero is not
/// kept at all, any other number is kept as it is.
pub open spec fn plan_write_spec(value: i128) -> SlotWrite {
    if value == 0 {
        SlotWrite::Clear
    } else {
        SlotWrite::Keep(value)
    }
}

/// Decides how a holder's shares or an allowance of `value` is kept.
pub fn plan_write(value: i128) -> (w: SlotWrite)
    ensures
        w == plan_write_spec(value),
{
    if value == 0 {
        SlotWrite::Clear
    } else {
        SlotWrite::Keep(value)
    }
}

/// The balance of a holder where it is known without a look at the reserve:
/// nothing, for a holder without shares and in a ledger without shares.
pub open spec fn balance_without_reserve_spec(shares: int, total_shares: int) -> Option<int> {
    if total_shares == 0 || shares == 0 {
        Some(0)
    } else {
        None
    }
}

/// Decides whether a balance is known without a look at the reserve, and
/// gives it if it is. Where it is not, `rusd_from_shares` gives it.
pub fn balance_without_reserve(shares: i128, total_shares: i128) -> (r: Option<i128>)
    ensures
        match r {
            Some(b) => balance_without_reserve_spec(shares as int, total_shares as int) == Some(
                b as int,
            ),
            None => balance_without_reserve_spec(shares as int, total_shares as int) is None,
        },
{
    if total_shares == 0 || shares == 0 {
        Some(0)
    } else {
        None
    }
}

/// Fails with `ZeroAmount` if `amount` is negative: an approval may be of
/// nothing, which withdraws it.
pub fn require_approvable_amount(amount: i128) -> (r: Result<(), Error>)
    ensures
        r == (if amount < 0 {
            Err::<(), Error>(Error::ZeroAmount)
        } else {
            Ok::<(), Error>(())
        }),
{
    if amount < 0 {
        Err(Error::ZeroAmount)
    } else {
        Ok(())
    }
}

/// Spends `amount` units from `allowance` and returns what is left.
pub fn spend_allowance(allowance: i128, amount: i128) -> (r: Result<i128, Error>)
    requires
        allowance >= 0,
    ensures
        agrees(r, spend_allowance_spec(allowance as int, amount as int)),
{
    if amount <= 0 {
        Err(Error::ZeroAmount)
    } else if allowance < amount {
        Err(Error::InsufficientAllowance)
    } else {
        Ok(allowance - amount)
    }
}

/// Decides a transfer of `amount` units between two share balances.
pub fn plan_transfer(
    amount: i128,
    total_shares: i128,
    underlying: i128,
    from_shares: i128,
    to_shares: i128,
    same_holder: bool,
) -> (r: Result<ShareMove, Error>)
    requires
        total_shares >= 0,
        underlying >= 0,
        from_shares >= 0,
        to_shares >= 0,
    ensures
        match r {
            Ok(m) => plan_transfer_spec(
                amount as int,
                total_shares as int,
                underlying as int,
                from_shares as int,
                to_shares as int,
                same_holder,
            ) == Ok::<(int, int), Error>((m.from_shares as int, m.to_shares as int)),
            Err(e) => plan_transfer_spec(
                amount as int,
                total_shares as int,
                underlying as int,
                from_shares as int,
                to_shares as int,
                same_holder,
            ) == Err::<(int, int), Error>(e),
        },
        r matches Ok(m) ==> 0 <= m.from_shares < from_shares && 0 < m.to_shares,
{
    proof {
        lemma_plan_transfer(
            amount as int,
            total_shares as int,
            underlying as int,
            from_shares as int,
            to_shares as int,
            same_holder,
        );
    }
    match require_positive_amount(amount) {
        Err(e) => {
            return Err(e);
        },
        Ok(()) => {},
    }
    let moved: i128 = match shares_from_rusd(amount, total_shares, underlying) {
        Err(e) => {
            return Err(e);
        },
        Ok(k) => k,
    };
    if from_shares < moved {
        return Err(Error::InsufficientShares);
    }
    let rest: i128 = from_shares - moved;
    let base: i128 = if same_holder {
        rest
    } else {
        to_shares
    };
    match base.checked_add(moved) {
        None => Err(Error::Overflow),
        Some(sum) => Ok(ShareMove { from_shares: rest, to_shares: sum }),
    }
}

/// Decides a deposit of `amount` units that has already reached the reserve.
pub fn plan_mint(amount: i128, total_shares: i128, underlying_after: i128, holder_shares: i128) -> (r:
    Result<MintPlan, Error>)
    requires
        total_shares >= 0,
        underlying_after >= 0,
        holder_shares >= 0,
    ensures
        match r {
            Ok(p) => plan_mint_spec(
                amount as int,
                total_shares as int,
                underlying_after as int,
                holder_shares as int,
            ) == Ok::<(int, int), Error>((p.holder_shares as int, p.total_shares as int)),
            Err(e) => plan_mint_spec(
                amount as int,
                total_shares as int,
                underlying_after as int,
                holder_shares as int,
            ) == Err::<(int, int), Error>(e),
        },
        r matches Ok(p) ==> holder_shares < p.holder_shares && total_shares < p.total_shares
            && p.holder_shares - holder_shares == p.total_shares - total_shares,
        total_shares == 0 ==> (r matches Ok(p) ==> p.total_shares == amount && p.holder_shares
            == holder_shares + amount),
        total_shares == 0 ==> (r is Ok <==> amount > 0 && holder_shares + amount <= i128::MAX),
{
    proof {
        lemma_plan_mint(
            amount as int,
            total_shares as int,
            underlying_after as int,
            holder_shares as int,
        );
    }
    match require_positive_amount(amount) {
        Err(e) => {
            return Err(e);
        },
        Ok(()) => {},
    }
    let minted: i128 = if total_shares == 0 {
        amount
    } else if underlying_after < amount {
        return Err(Error::Overflow);
    } else {
        match shares_from_rusd(amount, total_shares, underlying_after - amount) {
            Err(e) => {
                return Err(e);
            },
            Ok(k) => k,
        }
    };
    let holder: i128 = match holder_shares.checked_add(minted) {
        None => {
            return Err(Error::Overflow);
        },
        Some(x) => x,
    };
    match total_shares.checked_add(minted) {
        None => Err(Error::Overflow),
        Some(total) => Ok(MintPlan { holder_shares: holder, total_shares: total }),
    }
}

/// Decides a withdrawal of `amount` units.
pub fn plan_burn(amount: i128, total_shares: i128, underlying: i128, holder_shares: i128) -> (r:
    Result<BurnPlan, Error>)
    requires
        total_shares >= 0,
        underlying >= 0,
        holder_shares >= 0,
    ensures
        match r {
            Ok(p) => plan_burn_spec(
                amount as int,
                total_shares as int,
                underlying as int,
                holder_shares as int,
            ) == Ok::<(int, int, int), Error>(
                (p.holder_shares as int, p.total_shares as int, p.payout as int),
            ),
            Err(e) => plan_burn_spec(
                amount as int,
                total_shares as int,
                underlying as int,
                holder_shares as int,
            ) == Err::<(int, int, int), Error>(e),
        },
        r matches Ok(p) ==> 0 <= p.holder_shares < holder_shares && 0 <= p.total_shares
            < total_shares && holder_shares - p.holder_shares == total_shares - p.total_shares
            && amount <= p.payout <= underlying,
{
    proof {
        lemma_plan_burn(
            amount as int,
            total_shares as int,
            underlying as int,
            holder_shares as int,
        );
    }
    match require_positive_amount(amount) {
        Err(e) => {
            return Err(e);
        },
        Ok(()) => {},
    }
    let burned: i128 = match shares_from_rusd(amount, total_shares, underlying) {
        Err(e) => {
            return Err(e);
        },
        Ok(k) => k,
    };
    proof {
        lemma_shares_positive(amount as int, total_shares as int, underlying as int);
    }
    if holder_shares < burned {
        return Err(Error::InsufficientShares);
    }
    let payout: i128 = match rusd_from_shares(burned, total_shares, underlying) {
        Err(e) => {
            return Err(e);
        },
        Ok(p) => p,
    };
    if total_shares < burned {
        return Err(Error::Overflow);
    }
    Ok(
        BurnPlan {
            holder_shares: holder_shares - burned,
            total_shares: total_shares - burned,
            payout,
        },
    )
}

/// A planned transfer takes from the sender what it gives to the receiver,
/// and leaves neither with less than nothing.
pub proof fn lemma_plan_transfer(
    amount: int,
    total_shares: int,
    underlying: int,
    from_shares: int,
    to_shares: int,
    same_holder: bool,
)
    requires
        total_shares >= 0,
        underlying >= 0,
        from_shares >= 0,
        to_shares >= 0,
    ensures
        plan_transfer_spec(amount, total_shares, underlying, from_shares, to_shares, same_holder)
            matches Ok((rest, sum)) ==> {
            &&& 0 <= rest < from_shares
            &&& 0 < sum <= i128::MAX
            &&& same_holder ==> sum == from_shares
            &&& !same_holder ==> sum - to_shares == from_shares - rest
        },
{
    if amount > 0 {
        lemma_shares_positive(amount, total_shares, underlying);
    }
}

/// A planned deposit adds the same shares, at least one, to the depositor
/// and to the total.
pub proof fn lemma_plan_mint(
    amount: int,
    total_shares: int,
    underlying_after: int,
    holder_shares: int,
)
    requires
        total_shares >= 0,
        underlying_after >= 0,
        holder_shares >= 0,
    ensures
        plan_mint_spec(amount, total_shares, underlying_after, holder_shares) matches Ok(
            (holder, total),
        ) ==> {
            &&& holder - holder_shares == total - total_shares
            &&& holder_shares < holder <= i128::MAX
            &&& total_shares < total <= i128::MAX
        },
{
    if amount > 0 && total_shares != 0 && underlying_after >= amount {
        lemma_shares_positive(amount, total_shares, underlying_after - amount);
    }
}

/// A planned withdrawal takes the same shares, at least one, from the holder
/// and from the total, and pays no less than the amount asked for and no
/// more than the reserve holds.
pub proof fn lemma_plan_burn(amount: int, total_shares: int, underlying: int, holder_shares: int)
    requires
        total_shares >= 0,
        underlying >= 0,
        holder_shares >= 0,
    ensures
        plan_burn_spec(amount, total_shares, underlying, holder_shares) matches Ok(
            (holder, total, payout),
        ) ==> {
            &&& holder_shares - holder == total_shares - total
            &&& 0 <= holder < holder_shares
            &&& 0 <= total < total_shares
            &&& amount <= payout <= underlying
        },
{
    if let Ok((holder, total, payout)) = plan_burn_spec(
        amount,
        total_shares,
        underlying,
        holder_shares,
    ) {
        lemma_shares_positive(amount, total_shares, underlying);
        let burned = shares_from_rusd_spec(amount, total_shares, underlying)->Ok_0;
        crate::theorems::theorem_priced_shares_cover_amount(amount, total_shares, underlying);
        crate::conversion::lemma_floor_div_bounds(burned * underlying, total_shares);
        assert(payout <= underlying) by (nonlinear_arith)
            requires
                payout * total_shares <= burned * underlying,
                burned <= total_shares,
                total_shares > 0,
                underlying >= 0,
        ;
    }
}

/// A positive amount is never priced at less than one share.
pub proof fn lemma_shares_positive(amount: int, total_shares: int, underlying: int)
    requires
        amount > 0,
        total_shares >= 0,
        underlying >= 0,
    ensures
        shares_from_rusd_spec(amount, total_shares, underlying) matches Ok(k) ==> k >= 1,
{
    if total_shares > 0 && underlying > 0 {
        let p = amount * total_shares;
        assert(p >= 1) by (nonlinear_arith)
            requires
                p == amount * total_shares,
                amount >= 1,
                total_shares >= 1,
        ;
        crate::conversion::lemma_ceil_div_bounds(p, underlying);
        let c = crate::conversion::ceil_div(p, underlying);
        assert(c >= 1) by (nonlinear_arith)
            requires
                p <= c * underlying,
                p >= 1,
                underlying > 0,
        ;
    }
}

} // verus!
