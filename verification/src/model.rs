use crate::conversion::{rusd_from_shares_spec, rusd_value};
use crate::error::Error;
use crate::sum::{lemma_sum_drop, lemma_sum_insert, sum_by};
use crate::transition::{
    balance_without_reserve_spec, plan_burn_spec, plan_mint_spec, plan_transfer_spec,
    spend_allowance_spec,
};
use crate::types::{Address, ConfigView, DataKey};
use vstd::prelude::*;

verus! {

/// The state of a ledger as plain values: its configuration, if it has one,
/// and the numbers it keeps. A key without a number stands for zero.
pub struct LedgerView {
    pub config: Option<ConfigView>,
    pub slots: Map<DataKey, int>,
}

/// Weighs an entry by the shares it holds: a holder's entry by its number,
/// any other entry by nothing.
pub open spec fn share_weight() -> spec_fn(DataKey, int) -> int {
    |k: DataKey, x: int|
        if k is Shares {
            x
        } else {
            0
        }
}

/// Weighs an entry by the units it is worth: a holder's entry by the value of
/// its shares, any other entry by nothing.
pub open spec fn value_weight(total_shares: int, underlying: int) -> spec_fn(DataKey, int) -> int {
    |k: DataKey, x: int|
        if k is Shares {
            rusd_value(x, total_shares, underlying)
        } else {
            0
        }
}

/// Weighs an entry by the holder it stands for: a holder's entry by one, any
/// other entry by nothing.
pub open spec fn holder_weight() -> spec_fn(DataKey, int) -> int {
    |k: DataKey, x: int|
        if k is Shares {
            1
        } else {
            0
        }
}

impl LedgerView {
    /// The state of a ledger that has never been touched.
    pub open spec fn empty() -> LedgerView {
        LedgerView { config: None, slots: Map::empty() }
    }

    /// The number kept under `key`, zero where none is kept.
    pub open spec fn amount_at(self, key: DataKey) -> int {
        if self.slots.dom().contains(key) {
            self.slots[key]
        } else {
            0
        }
    }

    /// The number of shares in existence.
    pub open spec fn total_shares(self) -> int {
        self.amount_at(DataKey::TotalShares)
    }

    /// The shares that `holder` owns.
    pub open spec fn shares_of(self, holder: Address) -> int {
        self.amount_at(DataKey::Shares(holder))
    }

    /// The units that `owner` lets `spender` move.
    pub open spec fn allowance_of(self, owner: Address, spender: Address) -> int {
        self.amount_at(DataKey::Allowance(owner, spender))
    }

    /// What every ledger state satisfies: finitely many numbers are kept,
    /// none is negative or beyond `i128`, a holder's shares and an allowance
    /// are kept only while they are not zero, and the configuration is not
    /// kept among the numbers.
    pub open spec fn well_formed(self) -> bool {
        &&& self.slots.dom().finite()
        &&& !self.slots.dom().contains(DataKey::Config)
        &&& forall|k: DataKey| #[trigger]
            self.slots.dom().contains(k) ==> 0 <= self.slots[k] <= i128::MAX
        &&& forall|k: DataKey| #[trigger]
            self.slots.dom().contains(k) && k != DataKey::TotalShares ==> self.slots[k] > 0
    }

    /// The shares of all holders together.
    pub open spec fn held_shares(self) -> int {
        sum_by(self.slots, share_weight())
    }

    /// The number of holders that own shares.
    pub open spec fn holder_count(self) -> int {
        sum_by(self.slots, holder_weight())
    }

    /// The holders' shares add up to the total.
    pub open spec fn conserved(self) -> bool {
        self.held_shares() == self.total_shares()
    }

    /// The balance that `owner` sees while the reserve holds `underlying`.
    pub open spec fn balance_value(self, owner: Address, underlying: int) -> int {
        rusd_value(self.shares_of(owner), self.total_shares(), underlying)
    }

    /// The balances of all holders together while the reserve holds
    /// `underlying`.
    pub open spec fn held_value(self, underlying: int) -> int {
        sum_by(self.slots, value_weight(self.total_shares(), underlying))
    }

    /// The state in which `x` is kept under `key`; nothing is kept for zero.
    /// This is what `plan_write` decides for a holder's shares and for an
    /// allowance.
    pub open spec fn put(self, key: DataKey, x: int) -> LedgerView {
        LedgerView {
            config: self.config,
            slots: if x == 0 {
                self.slots.remove(key)
            } else {
                self.slots.insert(key, x)
            },
        }
    }

    /// The state in which the total is `x`.
    pub open spec fn put_total(self, x: int) -> LedgerView {
        LedgerView { config: self.config, slots: self.slots.insert(DataKey::TotalShares, x) }
    }

    /// Setting up: refused if it was done before.
    pub open spec fn init_spec(self, config: ConfigView) -> Result<LedgerView, Error> {
        if self.config is Some {
            Err(Error::AlreadyInitialized)
        } else {
            Ok(LedgerView { config: Some(config), slots: self.slots })
        }
    }

    /// The configuration, or `NotInitialized`.
    pub open spec fn config_spec(self) -> Result<ConfigView, Error> {
        match self.config {
            Some(c) => Ok(c),
            None => Err(Error::NotInitialized),
        }
    }

    /// The balance query. An empty ledger and a holder without shares show
    /// zero even before the ledger is set up.
    pub open spec fn balance_spec(self, owner: Address, underlying: int) -> Result<int, Error> {
        match balance_without_reserve_spec(self.shares_of(owner), self.total_shares()) {
            Some(known) => Ok(known),
            None => if self.config is None {
                Err(Error::NotInitialized)
            } else {
                rusd_from_shares_spec(self.shares_of(owner), self.total_shares(), underlying)
            },
        }
    }

    /// The supply query: what all shares together are worth.
    pub open spec fn total_supply_spec(self, underlying: int) -> Result<int, Error> {
        match balance_without_reserve_spec(self.total_shares(), self.total_shares()) {
            Some(known) => Ok(known),
            None => if self.config is None {
                Err(Error::NotInitialized)
            } else {
                rusd_from_shares_spec(self.total_shares(), self.total_shares(), underlying)
            },
        }
    }

    /// An approval replaces the allowance. A negative one is refused, and so
    /// is any before the ledger is set up.
    pub open spec fn approve_spec(self, owner: Address, spender: Address, amount: int) -> Result<
        LedgerView,
        Error,
    > {
        if amount < 0 {
            Err(Error::ZeroAmount)
        } else if self.config is None {
            Err(Error::NotInitialized)
        } else {
            Ok(self.put(DataKey::Allowance(owner, spender), amount))
        }
    }

    /// A transfer moves the shares that `amount` units are priced at from
    /// `from` to `to`.
    pub open spec fn transfer_spec(
        self,
        from: Address,
        to: Address,
        amount: int,
        underlying: int,
    ) -> Result<LedgerView, Error> {
        if amount <= 0 {
            Err(Error::ZeroAmount)
        } else if self.config is None {
            Err(Error::NotInitialized)
        } else {
            match plan_transfer_spec(
                amount,
                self.total_shares(),
                underlying,
                self.shares_of(from),
                self.shares_of(to),
                from == to,
            ) {
                Err(e) => Err(e),
                Ok((rest, sum)) => Ok(
                    self.put(DataKey::Shares(from), rest).put(DataKey::Shares(to), sum),
                ),
            }
        }
    }

    /// A transfer on behalf of `from`: the allowance that `from` gave to
    /// `spender` must cover `amount`, and shrinks by it.
    pub open spec fn transfer_from_spec(
        self,
        spender: Address,
        from: Address,
        to: Address,
        amount: int,
        underlying: int,
    ) -> Result<LedgerView, Error> {
        match spend_allowance_spec(self.allowance_of(from, spender), amount) {
            Err(e) => Err(e),
            Ok(left) => match self.transfer_spec(from, to, amount, underlying) {
                Err(e) => Err(e),
                Ok(moved) => Ok(moved.put(DataKey::Allowance(from, spender), left)),
            },
        }
    }

    /// A deposit of `amount` units that has reached the reserve, which now
    /// holds `underlying_after`: the depositor and the total gain the shares
    /// created.
    pub open spec fn mint_spec(self, to: Address, amount: int, underlying_after: int) -> Result<
        LedgerView,
        Error,
    > {
        if amount <= 0 {
            Err(Error::ZeroAmount)
        } else if self.config is None {
            Err(Error::NotInitialized)
        } else {
            match plan_mint_spec(amount, self.total_shares(), underlying_after, self.shares_of(to)) {
                Err(e) => Err(e),
                Ok((holder, total)) => Ok(self.put(DataKey::Shares(to), holder).put_total(total)),
            }
        }
    }

    /// A withdrawal of `amount` units: the holder and the total lose the
    /// shares that the amount is priced at, and the second component is paid
    /// out of the reserve.
    pub open spec fn burn_spec(self, from: Address, amount: int, underlying: int) -> Result<
        (LedgerView, int),
        Error,
    > {
        if amount <= 0 {
            Err(Error::ZeroAmount)
        } else if self.config is None {
            Err(Error::NotInitialized)
        } else {
            match plan_burn_spec(amount, self.total_shares(), underlying, self.shares_of(from)) {
                Err(e) => Err(e),
                Ok((holder, total, payout)) => Ok(
                    (self.put(DataKey::Shares(from), holder).put_total(total), payout),
                ),
            }
        }
    }

    /// Keeping a number in range under a key other than `Config` leaves the
    /// state well formed, and changes the holders' shares by the change of
    /// that entry, if it is a holder's.
    pub proof fn lemma_put(self, key: DataKey, x: int)
        requires
            self.well_formed(),
            key != DataKey::Config,
            0 <= x <= i128::MAX,
        ensures
            self.put(key, x).well_formed(),
            self.put(key, x).config == self.config,
            self.put(key, x).amount_at(key) == x,
            forall|k: DataKey| k != key ==> self.put(key, x).amount_at(k) == self.amount_at(k),
            self.put(key, x).held_shares() == self.held_shares() + share_weight()(key, x)
                - share_weight()(key, self.amount_at(key)),
    {
        if x == 0 {
            lemma_sum_drop(self.slots, share_weight(), key);
        } else {
            lemma_sum_insert(self.slots, share_weight(), key, x);
        }
    }

    /// Setting the total leaves the state well formed and the holders'
    /// shares as they were.
    pub proof fn lemma_put_total(self, x: int)
        requires
            self.well_formed(),
            0 <= x <= i128::MAX,
        ensures
            self.put_total(x).well_formed(),
            self.put_total(x).config == self.config,
            self.put_total(x).total_shares() == x,
            forall|k: DataKey|
                k != DataKey::TotalShares ==> self.put_total(x).amount_at(k) == self.amount_at(k),
            self.put_total(x).held_shares() == self.held_shares(),
    {
        lemma_sum_insert(self.slots, share_weight(), DataKey::TotalShares, x);
    }

    /// An approval keeps the state well formed and touches no shares.
    pub proof fn lemma_approve(self, owner: Address, spender: Address, amount: int)
        requires
            self.well_formed(),
            amount <= i128::MAX,
        ensures
            self.approve_spec(owner, spender, amount) matches Ok(next) ==> {
                &&& next.well_formed()
                &&& next.config == self.config
                &&& next.allowance_of(owner, spender) == amount
                &&& next.total_shares() == self.total_shares()
                &&& next.held_shares() == self.held_shares()
                &&& forall|h: Address| next.shares_of(h) == self.shares_of(h)
            },
    {
        if amount >= 0 && self.config is Some {
            self.lemma_put(DataKey::Allowance(owner, spender), amount);
        }
    }

    /// A transfer keeps the state well formed, the total and the holders'
    /// shares together as they were, and touches no allowance.
    pub proof fn lemma_transfer(self, from: Address, to: Address, amount: int, underlying: int)
        requires
            self.well_formed(),
            underlying >= 0,
        ensures
            self.transfer_spec(from, to, amount, underlying) matches Ok(next) ==> {
                &&& next.well_formed()
                &&& next.config == self.config
                &&& next.total_shares() == self.total_shares()
                &&& next.held_shares() == self.held_shares()
                &&& forall|o: Address, s: Address| next.allowance_of(o, s) == self.allowance_of(o, s)
                &&& forall|h: Address| h != from && h != to ==> next.shares_of(h) == self.shares_of(h)
            },
    {
        if let Ok(next) = self.transfer_spec(from, to, amount, underlying) {
            let (rest, sum) = plan_transfer_spec(
                amount,
                self.total_shares(),
                underlying,
                self.shares_of(from),
                self.shares_of(to),
                from == to,
            )->Ok_0;
            crate::transition::lemma_plan_transfer(
                amount,
                self.total_shares(),
                underlying,
                self.shares_of(from),
                self.shares_of(to),
                from == to,
            );
            let mid = self.put(DataKey::Shares(from), rest);
            self.lemma_put(DataKey::Shares(from), rest);
            mid.lemma_put(DataKey::Shares(to), sum);
        }
    }

    /// A transfer on behalf of a holder keeps the state well formed and the
    /// total and the holders' shares together as they were.
    pub proof fn lemma_transfer_from(
        self,
        spender: Address,
        from: Address,
        to: Address,
        amount: int,
        underlying: int,
    )
        requires
            self.well_formed(),
            underlying >= 0,
        ensures
            self.transfer_from_spec(spender, from, to, amount, underlying) matches Ok(next) ==> {
                &&& next.well_formed()
                &&& next.config == self.config
                &&& next.total_shares() == self.total_shares()
                &&& next.held_shares() == self.held_shares()
                &&& next.allowance_of(from, spender) == self.allowance_of(from, spender) - amount
                &&& forall|h: Address| h != from && h != to ==> next.shares_of(h) == self.shares_of(h)
            },
    {
        if let Ok(next) = self.transfer_from_spec(spender, from, to, amount, underlying) {
            let left = spend_allowance_spec(self.allowance_of(from, spender), amount)->Ok_0;
            let moved = self.transfer_spec(from, to, amount, underlying)->Ok_0;
            self.lemma_transfer(from, to, amount, underlying);
            moved.lemma_put(DataKey::Allowance(from, spender), left);
        }
    }

    /// A deposit keeps the state well formed and adds the same shares to the
    /// depositor and to the total.
    pub proof fn lemma_mint(self, to: Address, amount: int, underlying_after: int)
        requires
            self.well_formed(),
            underlying_after >= 0,
        ensures
            self.mint_spec(to, amount, underlying_after) matches Ok(next) ==> {
                &&& next.well_formed()
                &&& next.config == self.config
                &&& next.total_shares() - self.total_shares() == next.shares_of(to)
                    - self.shares_of(to)
                &&& next.held_shares() - self.held_shares() == next.total_shares()
                    - self.total_shares()
                &&& next.total_shares() > self.total_shares()
                &&& forall|o: Address, s: Address| next.allowance_of(o, s) == self.allowance_of(o, s)
                &&& forall|h: Address| h != to ==> next.shares_of(h) == self.shares_of(h)
            },
    {
        if let Ok(next) = self.mint_spec(to, amount, underlying_after) {
            let (holder, total) = plan_mint_spec(
                amount,
                self.total_shares(),
                underlying_after,
                self.shares_of(to),
            )->Ok_0;
            crate::transition::lemma_plan_mint(
                amount,
                self.total_shares(),
                underlying_after,
                self.shares_of(to),
            );
            let mid = self.put(DataKey::Shares(to), holder);
            self.lemma_put(DataKey::Shares(to), holder);
            mid.lemma_put_total(total);
        }
    }

    /// A withdrawal keeps the state well formed and takes the same shares
    /// from the holder and from the total.
    pub proof fn lemma_burn(self, from: Address, amount: int, underlying: int)
        requires
            self.well_formed(),
            underlying >= 0,
        ensures
            self.burn_spec(from, amount, underlying) matches Ok((next, payout)) ==> {
                &&& next.well_formed()
                &&& next.config == self.config
                &&& self.total_shares() - next.total_shares() == self.shares_of(from)
                    - next.shares_of(from)
                &&& self.held_shares() - next.held_shares() == self.total_shares()
                    - next.total_shares()
                &&& next.total_shares() < self.total_shares()
                &&& amount <= payout <= underlying
                &&& forall|o: Address, s: Address| next.allowance_of(o, s) == self.allowance_of(o, s)
                &&& forall|h: Address| h != from ==> next.shares_of(h) == self.shares_of(h)
            },
    {
        if let Ok((next, payout)) = self.burn_spec(from, amount, underlying) {
            let (holder, total, p) = plan_burn_spec(
                amount,
                self.total_shares(),
                underlying,
                self.shares_of(from),
            )->Ok_0;
            crate::transition::lemma_plan_burn(
                amount,
                self.total_shares(),
                underlying,
                self.shares_of(from),
            );
            let mid = self.put(DataKey::Shares(from), holder);
            self.lemma_put(DataKey::Shares(from), holder);
            mid.lemma_put_total(total);
        }
    }
}

} // verus!
