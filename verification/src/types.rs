use vstd::prelude::*;

verus! {

/// The identity of a holder, a spender or the reserve asset. The ledger only
/// ever asks whether two identities are the same.
#[derive(Clone, Copy, PartialEq, Eq, Hash, Debug, Structural)]
pub struct Address {
    pub id: u64,
}

impl Address {
    /// The identity numbered `id`.
    pub fn new(id: u64) -> (a: Address)
        ensures
            a.id == id,
    {
        Address { id }
    }
}

/// What the ledger is told once, when it is set up.
#[derive(Debug)]
pub struct Config {
    /// The asset that the reserve is held in.
    pub usdc_contract_id: Address,
    pub name: String,
    pub symbol: String,
    pub decimals: u32,
}

/// A `Config` as plain values.
pub struct ConfigView {
    pub usdc_contract_id: Address,
    pub name: Seq<char>,
    pub symbol: Seq<char>,
    pub decimals: u32,
}

impl View for Config {
    type V = ConfigView;

    open spec fn view(&self) -> ConfigView {
        ConfigView {
            usdc_contract_id: self.usdc_contract_id,
            name: self.name@,
            symbol: self.symbol@,
            decimals: self.decimals,
        }
    }
}

impl Clone for Config {
    fn clone(&self) -> (c: Config)
        ensures
            c@ == self@,
    {
        Config {
            usdc_contract_id: self.usdc_contract_id,
            name: self.name.clone(),
            symbol: self.symbol.clone(),
            decimals: self.decimals,
        }
    }
}

/// The places in which the ledger keeps its state.
#[derive(Clone, Copy, PartialEq, Eq, Debug, Structural)]
pub enum DataKey {
    /// The configuration record.
    Config,
    /// The number of shares in existence.
    TotalShares,
    /// The shares of one holder; absent while the holder has none.
    Shares(Address),
    /// What an owner lets a spender move; absent while it is nothing.
    Allowance(Address, Address),
}

/// What an operation asks its host to announce.
#[derive(Clone, Copy, PartialEq, Eq, Debug, Structural)]
pub enum Event {
    /// `amount` units were deposited for `to`.
    Mint { to: Address, amount: i128 },
    /// `amount` units went from `from` to `to`.
    Transfer { from: Address, to: Address, amount: i128 },
}

} // verus!
