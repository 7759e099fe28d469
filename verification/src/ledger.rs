use crate::conversion::{agrees, rusd_from_shares};
use crate::error::Error;
use crate::model::LedgerView;
use crate::store::Store;
use crate::theorems::theorem_total_supply_is_reserve;
use crate::transition::{
    balance_without_reserve, plan_burn, plan_mint, plan_transfer, plan_write,
    require_approvable_amount, require_configured, require_unconfigured, spend_allowance,
    SlotWrite,
};
use crate::types::{Address, Config, ConfigView, DataKey, Event};
use vstd::prelude::*;

verus! {

/// A rebasing ledger held in memory.
///
/// The reserve itself lives elsewhere. Every operation that prices shares is
/// handed the number of units that the reserve holds at that moment.
pub struct RUsdToken {
    config: Option<Config>,
    store: Store,
}

impl View for RUsdToken {
    type V = LedgerView;

    closed spec fn view(&self) -> LedgerView {
        LedgerView {
            config: match self.config {
                Some(c) => Some(c@),
                None => None,
            },
            slots: self.store@,
        }
    }
}

/// A mutating operation ended as its description says: on success the ledger
/// went to the described state, on failure it stayed as it was.
pub open spec fn stepped<T>(
    r: Result<T, Error>,
    before: LedgerView,
    after: LedgerView,
    expected: Result<LedgerView, Error>,
) -> bool {
    match expected {
        Ok(next) => r is Ok && after == next,
        Err(e) => r is Err && r->Err_0 == e && after == before,
    }
}

impl RUsdToken {
    /// The ledger is in a state that its operations can work on. `new` gives
    /// such a ledger and every operation keeps it so.
    pub closed spec fn wf(&self) -> bool {
        self.store.wf() && self@.well_formed()
    }

    /// A ledger that operations can work on is in a well-formed state.
    pub proof fn lemma_well_formed(&self)
        requires
            self.wf(),
        ensures
            self@.well_formed(),
    {
    }

    /// A ledger without configuration, shares or allowances.
    pub fn new() -> (ledger: RUsdToken)
        ensures
            ledger.wf(),
            ledger@ == LedgerView::empty(),
            ledger@.conserved(),
    {
        RUsdToken { config: None, store: Store::new() }
    }

    /// Whether anything is kept under `key`.
    pub fn has(&self, key: &DataKey) -> (r: bool)
        ensures
            r == (if *key == DataKey::Config {
                self@.config is Some
            } else {
                self@.slots.dom().contains(*key)
            }),
    {
        match key {
            DataKey::Config => self.config.is_some(),
            _ => self.store.has(key),
        }
    }

    fn read_amount(&self, key: &DataKey) -> (x: i128)
        requires
            self.wf(),
        ensures
            x == self@.amount_at(*key),
            x >= 0,
    {
        match self.store.get(key) {
            Some(x) => x,
            None => 0,
        }
    }

    fn write_amount(&mut self, key: DataKey, x: i128)
        requires
            old(self).wf(),
            key != DataKey::Config,
            x >= 0,
        ensures
            final(self).wf(),
            final(self)@ == old(self)@.put(key, x as int),
    {
        proof {
            self@.lemma_put(key, x as int);
        }
        match plan_write(x) {
            SlotWrite::Clear => {
                self.store.remove(&key);
            },
            SlotWrite::Keep(value) => {
                self.store.set(key, value);
            },
        }
    }

    /// The number of shares in existence.
    pub fn read_total_shares(&self) -> (x: i128)
        requires
            self.wf(),
        ensures
            x == self@.total_shares(),
            x >= 0,
    {
        self.read_amount(&DataKey::TotalShares)
    }

    fn write_total_shares(&mut self, total_shares: i128)
        requires
            old(self).wf(),
            total_shares >= 0,
        ensures
            final(self).wf(),
            final(self)@ == old(self)@.put_total(total_shares as int),
    {
        proof {
            self@.lemma_put_total(total_shares as int);
        }
        self.store.set(DataKey::TotalShares, total_shares);
    }

    /// The shares that `owner` owns.
    pub fn read_shares(&self, owner: Address) -> (x: i128)
        requires
            self.wf(),
        ensures
            x == self@.shares_of(owner),
            x >= 0,
    {
        self.read_amount(&DataKey::Shares(owner))
    }

    fn write_shares(&mut self, owner: Address, shares: i128)
        requires
            old(self).wf(),
            shares >= 0,
        ensures
            final(self).wf(),
            final(self)@ == old(self)@.put(DataKey::Shares(owner), shares as int),
    {
        self.write_amount(DataKey::Shares(owner), shares);
    }

    /// The units that `owner` lets `spender` move.
    pub fn read_allowance(&self, owner: Address, spender: Address) -> (x: i128)
        requires
            self.wf(),
        ensures
            x == self@.allowance_of(owner, spender),
            x >= 0,
    {
        self.read_amount(&DataKey::Allowance(owner, spender))
    }

    fn write_allowance(&mut self, owner: Address, spender: Address, amount: i128)
        requires
            old(self).wf(),
            amount >= 0,
        ensures
            final(self).wf(),
            final(self)@ == old(self)@.put(DataKey::Allowance(owner, spender), amount as int),
    {
        self.write_amount(DataKey::Allowance(owner, spender), amount);
    }

    /// The configuration, once the ledger has been set up.
    pub fn read_config(&self) -> (r: Result<&Config, Error>)
        ensures
            match r {
                Ok(c) => self@.config_spec() == Ok::<ConfigView, Error>(c@),
                Err(e) => self@.config_spec() == Err::<ConfigView, Error>(e),
            },
    {
        match &self.config {
            Some(c) => Ok(c),
            None => Err(Error::NotInitialized),
        }
    }

    /// The asset in which the reserve is held.
    pub fn usdc_contract_id(&self) -> (r: Result<Address, Error>)
        ensures
            match r {
                Ok(a) => self@.config matches Some(c) && c.usdc_contract_id == a,
                Err(e) => self@.config is None && e == Error::NotInitialized,
            },
    {
        match self.read_config() {
            Ok(c) => Ok(c.usdc_contract_id),
            Err(e) => Err(e),
        }
    }

    /// Sets the ledger up. This can be done once.
    pub fn init(
        &mut self,
        usdc_contract_id: Address,
        name: String,
        symbol: String,
        decimals: u32,
    ) -> (r: Result<(), Error>)
        requires
            old(self).wf(),
        ensures
            final(self).wf(),
            stepped(
                r,
                old(self)@,
                final(self)@,
                old(self)@.init_spec(
                    ConfigView { usdc_contract_id, name: name@, symbol: symbol@, decimals },
                ),
            ),
            old(self)@.conserved() ==> final(self)@.conserved(),
    {
        match require_unconfigured(self.has(&DataKey::Config)) {
            Err(e) => Err(e),
            Ok(()) => {
                self.config = Some(Config { usdc_contract_id, name, symbol, decimals });
                Ok(())
            },
        }
    }

    /// The name given to the ledger.
    pub fn name(&self) -> (r: Result<String, Error>)
        ensures
            match r {
                Ok(s) => self@.config matches Some(c) && c.name == s@,
                Err(e) => self@.config is None && e == Error::NotInitialized,
            },
    {
        match self.read_config() {
            Ok(c) => Ok(c.name.clone()),
            Err(e) => Err(e),
        }
    }

    /// The symbol given to the ledger.
    pub fn symbol(&self) -> (r: Result<String, Error>)
        ensures
            match r {
                Ok(s) => self@.config matches Some(c) && c.symbol == s@,
                Err(e) => self@.config is None && e == Error::NotInitialized,
            },
    {
        match self.read_config() {
            Ok(c) => Ok(c.symbol.clone()),
            Err(e) => Err(e),
        }
    }

    /// The number of decimals given to the ledger.
    pub fn decimals(&self) -> (r: Result<u32, Error>)
        ensures
            match r {
                Ok(d) => self@.config matches Some(c) && c.decimals == d,
                Err(e) => self@.config is None && e == Error::NotInitialized,
            },
    {
        match self.read_config() {
            Ok(c) => Ok(c.decimals),
            Err(e) => Err(e),
        }
    }

    /// The balance that `owner` sees while the reserve holds `underlying`
    /// units.
    pub fn balance(&self, owner: Address, underlying: i128) -> (r: Result<i128, Error>)
        requires
            self.wf(),
            underlying >= 0,
        ensures
            agrees(r, self@.balance_spec(owner, underlying as int)),
            r matches Ok(b) ==> b == self@.balance_value(owner, underlying as int),
    {
        let total_shares: i128 = self.read_total_shares();
        let shares: i128 = self.read_shares(owner);
        match balance_without_reserve(shares, total_shares) {
            Some(known) => {
                return Ok(known);
            },
            None => {},
        }
        match require_configured(self.has(&DataKey::Config)) {
            Err(e) => {
                return Err(e);
            },
            Ok(()) => {},
        }
        rusd_from_shares(shares, total_shares, underlying)
    }

    /// What all shares together are worth while the reserve holds
    /// `underlying` units.
    pub fn total_supply(&self, underlying: i128) -> (r: Result<i128, Error>)
        requires
            self.wf(),
            underlying >= 0,
        ensures
            agrees(r, self@.total_supply_spec(underlying as int)),
            r matches Ok(supply) ==> supply == (if self@.total_shares() == 0 {
                0
            } else {
                underlying
            }),
    {
        let total_shares: i128 = self.read_total_shares();
        match balance_without_reserve(total_shares, total_shares) {
            Some(known) => {
                return Ok(known);
            },
            None => {},
        }
        proof {
            theorem_total_supply_is_reserve(self@, underlying as int);
        }
        match require_configured(self.has(&DataKey::Config)) {
            Err(e) => {
                return Err(e);
            },
            Ok(()) => {},
        }
        rusd_from_shares(total_shares, total_shares, underlying)
    }

    /// Moves `amount` units from `from` to `to`.
    pub fn transfer(&mut self, from: Address, to: Address, amount: i128, underlying: i128) -> (r:
        Result<Event, Error>)
        requires
            old(self).wf(),
            underlying >= 0,
        ensures
            final(self).wf(),
            stepped(
                r,
                old(self)@,
                final(self)@,
                old(self)@.transfer_spec(from, to, amount as int, underlying as int),
            ),
            r matches Ok(event) ==> event == (Event::Transfer { from, to, amount }),
            old(self)@.conserved() ==> final(self)@.conserved(),
    {
        proof {
            self@.lemma_transfer(from, to, amount as int, underlying as int);
        }
        if amount <= 0 {
            return Err(Error::ZeroAmount);
        }
        match require_configured(self.has(&DataKey::Config)) {
            Err(e) => {
                return Err(e);
            },
            Ok(()) => {},
        }
        let total_shares: i128 = self.read_total_shares();
        let from_shares: i128 = self.read_shares(from);
        let to_shares: i128 = self.read_shares(to);
        match plan_transfer(amount, total_shares, underlying, from_shares, to_shares, from == to) {
            Err(e) => Err(e),
            Ok(m) => {
                self.write_shares(from, m.from_shares);
                self.write_shares(to, m.to_shares);
                Ok(Event::Transfer { from, to, amount })
            },
        }
    }

    /// Lets `spender` move up to `amount` units of `owner`; zero withdraws
    /// the permission. A negative amount is refused, and so is any approval
    /// before the ledger is set up.
    pub fn approve(&mut self, owner: Address, spender: Address, amount: i128) -> (r: Result<
        (),
        Error,
    >)
        requires
            old(self).wf(),
        ensures
            final(self).wf(),
            stepped(
                r,
                old(self)@,
                final(self)@,
                old(self)@.approve_spec(owner, spender, amount as int),
            ),
            old(self)@.conserved() ==> final(self)@.conserved(),
    {
        proof {
            self@.lemma_approve(owner, spender, amount as int);
        }
        match require_approvable_amount(amount) {
            Err(e) => {
                return Err(e);
            },
            Ok(()) => {},
        }
        match require_configured(self.has(&DataKey::Config)) {
            Err(e) => Err(e),
            Ok(()) => {
                self.write_allowance(owner, spender, amount);
                Ok(())
            },
        }
    }

    /// The units that `owner` lets `spender` move.
    pub fn allowance(&self, owner: Address, spender: Address) -> (x: i128)
        requires
            self.wf(),
        ensures
            x == self@.allowance_of(owner, spender),
            x >= 0,
    {
        self.read_allowance(owner, spender)
    }

    /// Moves `amount` units from `from` to `to` on behalf of `spender`, out
    /// of the allowance that `from` gave to `spender`.
    pub fn transfer_from(
        &mut self,
        spender: Address,
        from: Address,
        to: Address,
        amount: i128,
        underlying: i128,
    ) -> (r: Result<(), Error>)
        requires
            old(self).wf(),
            underlying >= 0,
        ensures
            final(self).wf(),
            stepped(
                r,
                old(self)@,
                final(self)@,
                old(self)@.transfer_from_spec(spender, from, to, amount as int, underlying as int),
            ),
            old(self)@.conserved() ==> final(self)@.conserved(),
    {
        proof {
            self@.lemma_transfer(from, to, amount as int, underlying as int);
            self@.lemma_transfer_from(spender, from, to, amount as int, underlying as int);
        }
        let allowance: i128 = self.read_allowance(from, spender);
        let left: i128 = match spend_allowance(allowance, amount) {
            Err(e) => {
                return Err(e);
            },
            Ok(left) => left,
        };
        match require_configured(self.has(&DataKey::Config)) {
            Err(e) => {
                return Err(e);
            },
            Ok(()) => {},
        }
        let total_shares: i128 = self.read_total_shares();
        let from_shares: i128 = self.read_shares(from);
        let to_shares: i128 = self.read_shares(to);
        match plan_transfer(amount, total_shares, underlying, from_shares, to_shares, from == to) {
            Err(e) => Err(e),
            Ok(m) => {
                self.write_shares(from, m.from_shares);
                self.write_shares(to, m.to_shares);
                self.write_allowance(from, spender, left);
                Ok(())
            },
        }
    }

    /// Credits `to` for a deposit of `amount` units. The deposit has reached
    /// the reserve before the call: `underlying_after` counts it in.
    pub fn mint(&mut self, to: Address, amount: i128, underlying_after: i128) -> (r: Result<
        Event,
        Error,
    >)
        requires
            old(self).wf(),
            underlying_after >= 0,
        ensures
            final(self).wf(),
            stepped(
                r,
                old(self)@,
                final(self)@,
                old(self)@.mint_spec(to, amount as int, underlying_after as int),
            ),
            r matches Ok(event) ==> event == (Event::Mint { to, amount }),
            old(self)@.conserved() ==> final(self)@.conserved(),
    {
        proof {
            self@.lemma_mint(to, amount as int, underlying_after as int);
        }
        if amount <= 0 {
            return Err(Error::ZeroAmount);
        }
        match require_configured(self.has(&DataKey::Config)) {
            Err(e) => {
                return Err(e);
            },
            Ok(()) => {},
        }
        let total_shares: i128 = self.read_total_shares();
        let user_shares: i128 = self.read_shares(to);
        match plan_mint(amount, total_shares, underlying_after, user_shares) {
            Err(e) => Err(e),
            Ok(p) => {
                self.write_shares(to, p.holder_shares);
                self.write_total_shares(p.total_shares);
                Ok(Event::Mint { to, amount })
            },
        }
    }

    /// Takes the shares that `amount` units are priced at from `from` and
    /// returns the units to pay out of the reserve.
    pub fn burn(&mut self, from: Address, amount: i128, underlying: i128) -> (r: Result<i128, Error>)
        requires
            old(self).wf(),
            underlying >= 0,
        ensures
            final(self).wf(),
            match r {
                Ok(payout) => old(self)@.burn_spec(from, amount as int, underlying as int) == Ok::<
                    (LedgerView, int),
                    Error,
                >((final(self)@, payout as int)),
                Err(e) => old(self)@.burn_spec(from, amount as int, underlying as int) == Err::<
                    (LedgerView, int),
                    Error,
                >(e) && final(self)@ == old(self)@,
            },
            r matches Ok(payout) ==> amount <= payout <= underlying,
            old(self)@.conserved() ==> final(self)@.conserved(),
    {
        proof {
            self@.lemma_burn(from, amount as int, underlying as int);
        }
        if amount <= 0 {
            return Err(Error::ZeroAmount);
        }
        match require_configured(self.has(&DataKey::Config)) {
            Err(e) => {
                return Err(e);
            },
            Ok(()) => {},
        }
        let total_shares: i128 = self.read_total_shares();
        let user_shares: i128 = self.read_shares(from);
        match plan_burn(amount, total_shares, underlying, user_shares) {
            Err(e) => Err(e),
            Ok(p) => {
                self.write_shares(from, p.holder_shares);
                self.write_total_shares(p.total_shares);
                Ok(p.payout)
            },
        }
    }
}

} // verus!
