//! Accounting core of a rebasing token.
//!
//! Holders own shares of a pooled reserve. A holder's visible balance is the
//! part of the reserve that their shares stand for, so it moves with the
//! reserve without any per-holder bookkeeping.
//!
//! - `conversion` prices units in shares (rounding up) and shares in units
//!   (rounding down), with checked arithmetic.
//! - `transition` decides each operation from the few numbers it reads to the
//!   few numbers it writes. A host that keeps the numbers in storage of its
//!   own calls these.
//! - `store` is a table of numbers under keys; `ledger` keeps a whole ledger
//!   in one and runs the operations on it.
//! - `model` describes the state of a ledger and each operation on it as
//!   plain mathematics; the contracts of `ledger` are stated over it.
//! - `theorems` and `history` prove what holds of every ledger: the holders'
//!   shares add up to the total, and their balances never exceed the reserve.

pub mod conversion;
pub mod error;
pub mod history;
pub mod ledger;
pub mod model;
pub mod store;
pub mod sum;
pub mod theorems;
pub mod transition;
pub mod types;

pub use conversion::{
    mul_div_ceil, mul_div_floor, require_positive_amount, rusd_from_shares, shares_from_rusd,
};
pub use error::Error;
pub use ledger::RUsdToken;
pub use model::LedgerView;
pub use store::Store;
pub use transition::{
    balance_without_reserve, plan_burn, plan_mint, plan_transfer, plan_write,
    require_approvable_amount, require_configured, require_unconfigured, spend_allowance,
    BurnPlan, MintPlan, ShareMove, SlotWrite,
};
pub use types::{Address, Config, ConfigView, DataKey, Event};
