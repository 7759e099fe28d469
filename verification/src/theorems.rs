use crate::conversion::{
    agrees, fits, floor_div, lemma_ceil_div_bounds, lemma_floor_div_bounds, rusd_from_shares_spec,
    rusd_value, shares_from_rusd_spec,
};
use crate::error::Error;
use crate::model::{holder_weight, share_weight, value_weight, LedgerView};
use crate::sum::{
    lemma_sum_combined, lemma_sum_covers_each, lemma_sum_drop, lemma_sum_scaled_le, sum_by,
};
use crate::types::{Address, DataKey};
use vstd::arithmetic::div_mod::lemma_fundamental_div_mod_converse;
use vstd::prelude::*;

verus! {

/// Pricing units in shares rounds up: the shares credited are the least
/// number whose part of the reserve covers the amount.
pub proof fn theorem_shares_round_up(amount: int, total_shares: int, underlying: int)
    requires
        amount > 0,
        total_shares > 0,
        underlying > 0,
    ensures
        shares_from_rusd_spec(amount, total_shares, underlying) matches Ok(shares) ==> (shares
            - 1) * underlying < amount * total_shares <= shares * underlying,
{
    lemma_ceil_div_bounds(amount * total_shares, underlying);
}

/// Pricing shares in units rounds down: the units paid are the greatest
/// number that the shares' part of the reserve covers.
pub proof fn theorem_units_round_down(shares: int, total_shares: int, underlying: int)
    requires
        shares >= 0,
        total_shares > 0,
        underlying >= 0,
    ensures
        rusd_value(shares, total_shares, underlying) * total_shares <= shares * underlying < (
        rusd_value(shares, total_shares, underlying) + 1) * total_shares,
        rusd_from_shares_spec(shares, total_shares, underlying) matches Ok(units) ==> units
            == rusd_value(shares, total_shares, underlying),
{
    lemma_floor_div_bounds(shares * underlying, total_shares);
    if shares == 0 {
        assert(0 * underlying == 0);
        assert((0 + 1) * total_shares > 0);
    }
}

/// The shares that an amount is priced at are worth no less than the amount.
pub proof fn theorem_priced_shares_cover_amount(amount: int, total_shares: int, underlying: int)
    requires
        amount > 0,
        total_shares > 0,
        underlying > 0,
    ensures
        shares_from_rusd_spec(amount, total_shares, underlying) matches Ok(shares) ==> rusd_value(
            shares,
            total_shares,
            underlying,
        ) >= amount,
{
    if let Ok(shares) = shares_from_rusd_spec(amount, total_shares, underlying) {
        theorem_shares_round_up(amount, total_shares, underlying);
        crate::transition::lemma_shares_positive(amount, total_shares, underlying);
        let units = rusd_value(shares, total_shares, underlying);
        lemma_floor_div_bounds(shares * underlying, total_shares);
        assert(units >= amount) by (nonlinear_arith)
            requires
                amount * total_shares <= shares * underlying,
                shares * underlying < (units + 1) * total_shares,
                total_shares > 0,
        ;
    }
}

/// All shares together are worth the whole reserve.
pub proof fn theorem_total_supply_is_reserve(v: LedgerView, underlying: int)
    requires
        v.total_shares() > 0,
    ensures
        rusd_value(v.total_shares(), v.total_shares(), underlying) == underlying,
        v.total_supply_spec(underlying) matches Ok(supply) ==> supply == underlying,
{
    let t = v.total_shares();
    assert(t * underlying == underlying * t + 0) by (nonlinear_arith);
    lemma_fundamental_div_mod_converse(t * underlying, t, underlying, 0);
}

/// In a ledger whose holders' shares add up to the total, the balances of
/// all holders together never exceed the reserve, whatever the reserve holds.
pub proof fn theorem_solvency(v: LedgerView, underlying: int)
    requires
        v.well_formed(),
        v.conserved(),
        underlying >= 0,
    ensures
        0 <= v.held_value(underlying) <= underlying,
{
    let m = v.slots;
    let t = v.total_shares();
    let values = value_weight(t, underlying);
    let shares = share_weight();
    assert forall|j: DataKey| #[trigger] m.dom().contains(j) implies values(j, m[j]) >= 0 by {
        if j is Shares && t != 0 && m[j] != 0 {
            lemma_floor_div_bounds(m[j] * underlying, t);
            assert(m[j] * underlying >= 0) by (nonlinear_arith)
                requires
                    m[j] >= 0,
                    underlying >= 0,
            ;
            let q = floor_div(m[j] * underlying, t);
            assert(q >= 0) by (nonlinear_arith)
                requires
                    (q + 1) * t > 0,
                    t > 0,
            ;
        }
    }
    lemma_sum_covers_each(m, values, DataKey::TotalShares);
    if t == 0 {
        assert forall|j: DataKey| #[trigger] m.dom().contains(j) implies 1 * values(j, m[j]) <= 0
            * shares(j, m[j]) by {}
        lemma_sum_scaled_le(m, values, 1, shares, 0);
    } else {
        assert forall|j: DataKey| #[trigger] m.dom().contains(j) implies t * values(j, m[j])
            <= underlying * shares(j, m[j]) by {
            if j is Shares {
                let x = m[j];
                if x != 0 {
                    lemma_floor_div_bounds(x * underlying, t);
                    let q = floor_div(x * underlying, t);
                    assert(t * q == q * t && underlying * x == x * underlying)
                        by (nonlinear_arith);
                } else {
                    assert(t * 0 == 0 && underlying * 0 == 0);
                }
            } else {
                assert(t * 0 == 0 && underlying * 0 == 0);
            }
        }
        lemma_sum_scaled_le(m, values, t, shares, underlying);
        let total_value = sum_by(m, values);
        assert(total_value <= underlying) by (nonlinear_arith)
            requires
                t * total_value <= underlying * t,
                t > 0,
        ;
    }
}

/// The balances of the holders listed in `holders`, added up.
pub open spec fn balances_of(v: LedgerView, holders: Seq<Address>, underlying: int) -> int
    decreases holders.len(),
{
    if holders.len() == 0 {
        0
    } else {
        balances_of(v, holders.drop_last(), underlying) + v.balance_value(
            holders.last(),
            underlying,
        )
    }
}

/// No holder is listed twice.
pub open spec fn distinct(holders: Seq<Address>) -> bool {
    forall|i: int, j: int| 0 <= i < j < holders.len() ==> holders[i] != holders[j]
}

/// The balances of the listed holders never exceed the balances of all
/// holders together.
proof fn lemma_listed_within_held(v: LedgerView, holders: Seq<Address>, underlying: int)
    requires
        v.slots.dom().finite(),
        forall|k: DataKey| #[trigger] v.slots.dom().contains(k) ==> v.slots[k] >= 0,
        underlying >= 0,
        distinct(holders),
    ensures
        balances_of(v, holders, underlying) <= v.held_value(underlying),
    decreases holders.len(),
{
    let m = v.slots;
    let values = value_weight(v.total_shares(), underlying);
    assert forall|j: DataKey| #[trigger] m.dom().contains(j) implies values(j, m[j]) >= 0 by {
        lemma_value_not_negative(m[j], v.total_shares(), underlying);
    }
    lemma_sum_covers_each(m, values, DataKey::TotalShares);
    if holders.len() > 0 {
        let key = DataKey::Shares(holders.last());
        let w = LedgerView { config: v.config, slots: m.remove(key) };
        lemma_listed_within_held(w, holders.drop_last(), underlying);
        lemma_sum_drop(m, values, key);
        lemma_balances_of_agree(v, w, holders.drop_last(), underlying);
    }
}

/// Shares are worth nothing negative.
proof fn lemma_value_not_negative(shares: int, total_shares: int, underlying: int)
    requires
        shares >= 0,
        total_shares >= 0,
        underlying >= 0,
    ensures
        rusd_value(shares, total_shares, underlying) >= 0,
{
    if total_shares != 0 && shares != 0 {
        assert(shares * underlying >= 0) by (nonlinear_arith)
            requires
                shares >= 0,
                underlying >= 0,
        ;
        lemma_floor_div_at_least(shares * underlying, total_shares, 0);
    }
}

/// Two states that agree on the total and on the shares of the listed
/// holders give them the same balances.
proof fn lemma_balances_of_agree(
    v: LedgerView,
    w: LedgerView,
    holders: Seq<Address>,
    underlying: int,
)
    requires
        v.total_shares() == w.total_shares(),
        forall|i: int| 0 <= i < holders.len() ==> v.shares_of(#[trigger] holders[i]) == w.shares_of(
            holders[i],
        ),
    ensures
        balances_of(v, holders, underlying) == balances_of(w, holders, underlying),
    decreases holders.len(),
{
    if holders.len() > 0 {
        lemma_balances_of_agree(v, w, holders.drop_last(), underlying);
    }
}

/// In a ledger whose holders' shares add up to the total, the balances of
/// any holders, each counted once, never exceed the reserve.
pub proof fn theorem_balances_within_reserve(
    v: LedgerView,
    holders: Seq<Address>,
    underlying: int,
)
    requires
        v.well_formed(),
        v.conserved(),
        underlying >= 0,
        distinct(holders),
    ensures
        balances_of(v, holders, underlying) <= underlying,
{
    theorem_solvency(v, underlying);
    lemma_listed_within_held(v, holders, underlying);
}

/// Where the holders' shares add up to the total, no holder owns more than
/// the total, and a holder of nothing is not recorded.
pub proof fn theorem_no_holder_exceeds_total(v: LedgerView, holder: Address)
    requires
        v.well_formed(),
        v.conserved(),
    ensures
        0 <= v.shares_of(holder) <= v.total_shares(),
{
    let shares = share_weight();
    assert forall|j: DataKey| #[trigger] v.slots.dom().contains(j) implies shares(j, v.slots[j])
        >= 0 by {}
    lemma_sum_covers_each(v.slots, shares, DataKey::Shares(holder));
}

/// While no shares exist, every amount is priced at one share per unit. No
/// division is made, so nothing is refused, whatever the reserve holds.
pub proof fn theorem_first_shares_equal_amount(amount: int, underlying: int)
    ensures
        shares_from_rusd_spec(amount, 0, underlying) == Ok::<int, Error>(amount),
{
}

/// A deposit into a ledger without shares creates exactly as many shares as
/// units were deposited, whatever the reserve holds, and is refused only
/// where the depositor's shares would leave `i128`.
pub proof fn theorem_first_mint_creates_amount(
    v: LedgerView,
    to: Address,
    amount: int,
    underlying_after: int,
)
    requires
        v.well_formed(),
        v.config is Some,
        v.total_shares() == 0,
        amount > 0,
    ensures
        v.mint_spec(to, amount, underlying_after) is Ok <==> v.shares_of(to) + amount
            <= i128::MAX,
        v.mint_spec(to, amount, underlying_after) matches Err(e) ==> e == Error::Overflow,
        v.mint_spec(to, amount, underlying_after) matches Ok(next) ==> {
            &&& next.shares_of(to) == v.shares_of(to) + amount
            &&& next.total_shares() == amount
            &&& next.well_formed()
        },
{
    if let Ok(next) = v.mint_spec(to, amount, underlying_after) {
        let mid = v.put(DataKey::Shares(to), v.shares_of(to) + amount);
        v.lemma_put(DataKey::Shares(to), v.shares_of(to) + amount);
        mid.lemma_put_total(amount);
    }
}

/// In a ledger whose holders' shares add up to the total, rounding leaves
/// less than one unit per holder unclaimed: the reserve exceeds the balances
/// of all holders together by less than the number of holders.
pub proof fn theorem_dust_is_less_than_a_unit_each(v: LedgerView, underlying: int)
    requires
        v.well_formed(),
        v.conserved(),
        v.total_shares() > 0,
        underlying >= 0,
    ensures
        v.holder_count() >= 1,
        0 <= underlying - v.held_value(underlying) < v.holder_count(),
{
    let m = v.slots;
    let t = v.total_shares();
    let values = value_weight(t, underlying);
    let shares = share_weight();
    let holders = holder_weight();
    let bound = |k: DataKey, x: int| t * values(k, x) + (t - 1) * holders(k, x);
    theorem_solvency(v, underlying);
    assert forall|j: DataKey| #[trigger] m.dom().contains(j) implies 1 * shares(j, m[j])
        <= i128::MAX * holders(j, m[j]) by {}
    lemma_sum_scaled_le(m, shares, 1, holders, i128::MAX as int);
    let n = v.holder_count();
    assert(n >= 1) by (nonlinear_arith)
        requires
            1 * t <= i128::MAX * n,
            t > 0,
    ;
    assert forall|j: DataKey| #[trigger] m.dom().contains(j) implies underlying * shares(j, m[j])
        <= 1 * bound(j, m[j]) by {
        if j is Shares {
            let x = m[j];
            lemma_floor_div_bounds(x * underlying, t);
            let q = floor_div(x * underlying, t);
            assert(underlying * x == x * underlying && (q + 1) * t == t * q + t && (t - 1) * 1
                == t - 1) by (nonlinear_arith);
        } else {
            assert(underlying * 0 == 0 && t * 0 == 0 && (t - 1) * 0 == 0);
        }
    }
    lemma_sum_scaled_le(m, shares, underlying, bound, 1);
    lemma_sum_combined(m, values, t, holders, t - 1, bound);
    let held = v.held_value(underlying);
    assert(underlying - held < n) by (nonlinear_arith)
        requires
            underlying * t <= 1 * (t * held + (t - 1) * n),
            t > 0,
            n >= 1,
    ;
}

/// The first deposit into an empty ledger is credited one share per unit,
/// whatever the reserve reports, and the depositor then owns the whole
/// reserve: a balance equal to the deposit where the reserve holds nothing
/// else.
pub proof fn theorem_bootstrap(v: LedgerView, to: Address, amount: int, underlying_after: int)
    requires
        v.well_formed(),
        v.conserved(),
        v.config is Some,
        v.total_shares() == 0,
        0 < amount <= i128::MAX,
    ensures
        v.mint_spec(to, amount, underlying_after) matches Ok(next) && {
            &&& next.shares_of(to) == amount
            &&& next.total_shares() == amount
            &&& next.balance_value(to, amount) == amount
            &&& next.balance_spec(to, amount) == (if fits(amount * amount) {
                Ok::<int, Error>(amount)
            } else {
                Err::<int, Error>(Error::Overflow)
            })
            &&& forall|underlying: int| #[trigger]
                next.balance_value(to, underlying) == underlying
        },
{
    theorem_no_holder_exceeds_total(v, to);
    let next = v.mint_spec(to, amount, underlying_after)->Ok_0;
    theorem_total_supply_is_reserve(next, amount);
    assert forall|underlying: int| #[trigger]
        next.balance_value(to, underlying) == underlying by {
        theorem_total_supply_is_reserve(next, underlying);
    }
}

/// The quotient of a sum is the sum of the quotients, plus one where the
/// remainders together make up a whole.
pub proof fn lemma_floor_div_of_sum(a: int, b: int, d: int)
    requires
        d > 0,
    ensures
        floor_div(a + b, d) == floor_div(a, d) + floor_div(b, d) + (if a % d + b % d >= d {
            1int
        } else {
            0int
        }),
{
    assert(a == d * (a / d) + a % d && 0 <= a % d < d) by (nonlinear_arith)
        requires
            d > 0,
    ;
    assert(b == d * (b / d) + b % d && 0 <= b % d < d) by (nonlinear_arith)
        requires
            d > 0,
    ;
    let carry = if a % d + b % d >= d {
        1int
    } else {
        0int
    };
    let q = a / d + b / d + carry;
    let r = a % d + b % d - carry * d;
    assert(a + b == q * d + r) by (nonlinear_arith)
        requires
            a == d * (a / d) + a % d,
            b == d * (b / d) + b % d,
            q == a / d + b / d + carry,
            r == a % d + b % d - carry * d,
    ;
    lemma_fundamental_div_mod_converse(a + b, d, q, r);
}

/// When the reserve grows by `inflow` and no share moves, a holder's balance
/// grows by the holder's part of the inflow, rounded down, and by one unit
/// more where the parts that rounding had cut off now make up a whole unit.
pub proof fn theorem_rebase_propagation(
    v: LedgerView,
    holder: Address,
    underlying: int,
    inflow: int,
)
    requires
        v.total_shares() > 0,
        v.shares_of(holder) >= 0,
        underlying >= 0,
        inflow >= 0,
    ensures
        v.balance_value(holder, underlying + inflow) - v.balance_value(holder, underlying)
            == floor_div(v.shares_of(holder) * inflow, v.total_shares()) + (if (v.shares_of(holder)
            * underlying) % v.total_shares() + (v.shares_of(holder) * inflow) % v.total_shares()
            >= v.total_shares() {
            1int
        } else {
            0int
        }),
{
    let s = v.shares_of(holder);
    let t = v.total_shares();
    if s == 0 {
        assert(0 * inflow == 0 && 0 * underlying == 0);
        assert(0int / t == 0 && 0int % t == 0) by (nonlinear_arith)
            requires
                t > 0,
        ;
    } else {
        assert(s * (underlying + inflow) == s * underlying + s * inflow) by (nonlinear_arith);
        lemma_floor_div_of_sum(s * underlying, s * inflow, t);
    }
}

/// When the reserve grows by `inflow` and rounding had cut nothing off that
/// the inflow completes, a holder's balance grows by exactly the holder's
/// part of the inflow, rounded down.
pub proof fn theorem_rebase_exact(v: LedgerView, holder: Address, underlying: int, inflow: int)
    requires
        v.total_shares() > 0,
        v.shares_of(holder) >= 0,
        underlying >= 0,
        inflow >= 0,
        (v.shares_of(holder) * underlying) % v.total_shares() + (v.shares_of(holder) * inflow)
            % v.total_shares() < v.total_shares(),
    ensures
        v.balance_value(holder, underlying + inflow) == v.balance_value(holder, underlying)
            + floor_div(v.shares_of(holder) * inflow, v.total_shares()),
{
    theorem_rebase_propagation(v, holder, underlying, inflow);
}

/// In a ledger whose shares add up, a transfer between two holders raises
/// the receiver's balance by no less than the amount sent.
pub proof fn theorem_transfer_delivers_amount(
    v: LedgerView,
    from: Address,
    to: Address,
    amount: int,
    underlying: int,
)
    requires
        v.well_formed(),
        v.conserved(),
        underlying >= 0,
        from != to,
    ensures
        v.transfer_spec(from, to, amount, underlying) matches Ok(next) ==> next.balance_value(
            to,
            underlying,
        ) >= v.balance_value(to, underlying) + amount,
{
    if let Ok(next) = v.transfer_spec(from, to, amount, underlying) {
        let t = v.total_shares();
        let moved = shares_from_rusd_spec(amount, t, underlying)->Ok_0;
        let had = v.shares_of(to);
        v.lemma_transfer(from, to, amount, underlying);
        crate::transition::lemma_plan_transfer(
            amount,
            t,
            underlying,
            v.shares_of(from),
            had,
            false,
        );
        v.lemma_put(DataKey::Shares(from), v.shares_of(from) - moved);
        v.put(DataKey::Shares(from), v.shares_of(from) - moved).lemma_put(
            DataKey::Shares(to),
            had + moved,
        );
        assert(next.shares_of(to) == had + moved);
        assert(next.total_shares() == t);
        theorem_no_holder_exceeds_total(v, from);
        if t > 0 && underlying > 0 {
            theorem_priced_shares_cover_amount(amount, t, underlying);
            assert((had + moved) * underlying == had * underlying + moved * underlying)
                by (nonlinear_arith);
            lemma_floor_div_of_sum(had * underlying, moved * underlying, t);
            if had == 0 {
                assert(0 * underlying == 0);
                assert(0int / t == 0) by (nonlinear_arith)
                    requires
                        t > 0,
                ;
            }
        }
    }
}

/// A quotient is no smaller than any number whose multiple the dividend
/// reaches.
pub proof fn lemma_floor_div_at_least(p: int, d: int, k: int)
    requires
        d > 0,
        k * d <= p,
    ensures
        floor_div(p, d) >= k,
{
    lemma_floor_div_bounds(p, d);
    assert(floor_div(p, d) >= k) by (nonlinear_arith)
        requires
            k * d <= p,
            p < (floor_div(p, d) + 1) * d,
            d > 0,
    ;
}

/// In a ledger whose shares add up, a deposit raises the depositor's balance
/// by no less than the amount deposited. `underlying` is what the reserve
/// held before the deposit arrived.
pub proof fn theorem_mint_credits_amount(v: LedgerView, to: Address, amount: int, underlying: int)
    requires
        v.well_formed(),
        v.conserved(),
        underlying >= 0,
    ensures
        v.mint_spec(to, amount, underlying + amount) matches Ok(next) ==> next.balance_value(
            to,
            underlying + amount,
        ) >= v.balance_value(to, underlying) + amount,
{
    if let Ok(next) = v.mint_spec(to, amount, underlying + amount) {
        let t = v.total_shares();
        let h = v.shares_of(to);
        v.lemma_mint(to, amount, underlying + amount);
        theorem_no_holder_exceeds_total(v, to);
        if t == 0 {
            theorem_total_supply_is_reserve(next, underlying + amount);
        } else {
            let s = shares_from_rusd_spec(amount, t, underlying)->Ok_0;
            theorem_shares_round_up(amount, t, underlying);
            crate::transition::lemma_plan_mint(amount, t, underlying + amount, h);
            v.lemma_put(DataKey::Shares(to), h + s);
            v.put(DataKey::Shares(to), h + s).lemma_put_total(t + s);
            assert(next.shares_of(to) == h + s);
            assert(next.total_shares() == t + s);
            let q = rusd_value(h, t, underlying);
            theorem_units_round_down(h, t, underlying);
            let su = s * underlying;
            let at = amount * t;
            let ha = h * amount;
            let qs = q * s;
            let slack = su - at;
            let others = t - h;
            assert(others * slack >= 0) by (nonlinear_arith)
                requires
                    others >= 0,
                    slack >= 0,
            ;
            assert(others * slack == t * slack - h * slack) by (nonlinear_arith)
                requires
                    others == t - h,
            ;
            assert(t * slack == t * su - t * at && h * slack == h * su - h * at)
                by (nonlinear_arith)
                requires
                    slack == su - at,
            ;
            assert(h * at == t * ha) by (nonlinear_arith)
                requires
                    at == amount * t,
                    ha == h * amount,
            ;
            assert(t * (su - at + ha - qs) == t * su - t * at + t * ha - t * qs)
                by (nonlinear_arith);
            assert((q * t) * s <= (h * underlying) * s) by (nonlinear_arith)
                requires
                    q * t <= h * underlying,
                    s >= 0,
            ;
            assert((h * underlying) * s == h * su) by (nonlinear_arith)
                requires
                    su == s * underlying,
            ;
            assert((q * t) * s == t * qs) by (nonlinear_arith)
                requires
                    qs == q * s,
            ;
            let gain = su - at + ha - qs;
            assert(t * gain >= 0);
            assert(gain >= 0) by (nonlinear_arith)
                requires
                    t * gain >= 0,
                    t > 0,
            ;
            assert((h + s) * (underlying + amount) == h * underlying + ha + su + s * amount)
                by (nonlinear_arith)
                requires
                    ha == h * amount,
                    su == s * underlying,
            ;
            assert((q + amount) * (t + s) == q * t + qs + at + s * amount) by (nonlinear_arith)
                requires
                    qs == q * s,
                    at == amount * t,
            ;
            lemma_floor_div_at_least((h + s) * (underlying + amount), t + s, q + amount);
        }
    }
}

/// A withdrawal does not lower what the shares of anyone else are worth:
/// the payout is rounded down, so what stays in the reserve covers the
/// shares that stay. `shares` is any number of shares that stay.
pub proof fn theorem_burn_keeps_others_whole(
    v: LedgerView,
    from: Address,
    amount: int,
    underlying: int,
    shares: int,
)
    requires
        v.well_formed(),
        underlying >= 0,
        shares >= 0,
    ensures
        v.burn_spec(from, amount, underlying) matches Ok((next, payout)) ==> rusd_value(
            shares,
            next.total_shares(),
            underlying - payout,
        ) >= rusd_value(shares, v.total_shares(), underlying) || next.total_shares() == 0,
{
    if let Ok((next, payout)) = v.burn_spec(from, amount, underlying) {
        let t = v.total_shares();
        let burned = shares_from_rusd_spec(amount, t, underlying)->Ok_0;
        v.lemma_burn(from, amount, underlying);
        crate::transition::lemma_plan_burn(amount, t, underlying, v.shares_of(from));
        v.lemma_put(DataKey::Shares(from), v.shares_of(from) - burned);
        v.put(DataKey::Shares(from), v.shares_of(from) - burned).lemma_put_total(t - burned);
        let rest = t - burned;
        assert(next.total_shares() == rest);
        if rest > 0 && shares > 0 {
            let q = rusd_value(shares, t, underlying);
            theorem_units_round_down(shares, t, underlying);
            theorem_units_round_down(burned, t, underlying);
            assert(payout == rusd_value(burned, t, underlying));
            let worth = shares * underlying;
            let kept = shares * (underlying - payout);
            assert(shares * (payout * t) <= shares * (burned * underlying)) by (nonlinear_arith)
                requires
                    payout * t <= burned * underlying,
                    shares >= 0,
            ;
            assert(kept * t == worth * t - shares * (payout * t)) by (nonlinear_arith)
                requires
                    kept == shares * (underlying - payout),
                    worth == shares * underlying,
            ;
            assert(worth * t - shares * (burned * underlying) == worth * rest) by (nonlinear_arith)
                requires
                    worth == shares * underlying,
                    rest == t - burned,
            ;
            assert(worth * rest >= (q * t) * rest) by (nonlinear_arith)
                requires
                    q * t <= worth,
                    rest >= 0,
            ;
            assert((q * t) * rest == (q * rest) * t) by (nonlinear_arith);
            assert(kept >= q * rest) by (nonlinear_arith)
                requires
                    kept * t >= (q * rest) * t,
                    t > 0,
            ;
            lemma_floor_div_at_least(shares * (underlying - payout), rest, q);
        }
    }
}

/// A query has one answer in one state: two results that both meet the
/// contract of `balance` for the same ledger, holder and reserve are equal.
pub proof fn theorem_balance_repeats(
    v: LedgerView,
    owner: Address,
    underlying: int,
    first: Result<i128, Error>,
    second: Result<i128, Error>,
)
    requires
        agrees(first, v.balance_spec(owner, underlying)),
        agrees(second, v.balance_spec(owner, underlying)),
    ensures
        first == second,
{
}

/// Two results that both meet the contract of `total_supply` for the same
/// ledger and reserve are equal.
pub proof fn theorem_total_supply_repeats(
    v: LedgerView,
    underlying: int,
    first: Result<i128, Error>,
    second: Result<i128, Error>,
)
    requires
        agrees(first, v.total_supply_spec(underlying)),
        agrees(second, v.total_supply_spec(underlying)),
    ensures
        first == second,
{
}

} // verus!
