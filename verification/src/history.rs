use crate::model::LedgerView;
use crate::theorems::{
    balances_of, distinct, theorem_balances_within_reserve, theorem_solvency,
};
use crate::types::{Address, ConfigView};
use vstd::prelude::*;

verus! {

/// One call of an operation that can change a ledger, with the arguments it
/// was given and the reserve it was shown.
pub enum Step {
    Init { config: ConfigView },
    Mint { to: Address, amount: int, underlying_after: int },
    Burn { from: Address, amount: int, underlying: int },
    Transfer { from: Address, to: Address, amount: int, underlying: int },
    Approve { owner: Address, spender: Address, amount: int },
    TransferFrom { spender: Address, from: Address, to: Address, amount: int, underlying: int },
}

impl Step {
    /// The call meets what the operation asks of its caller: the reserve
    /// shown is not negative, and an amount to approve fits an `i128`.
    pub open spec fn admissible(self) -> bool {
        match self {
            Step::Init { .. } => true,
            Step::Mint { underlying_after, .. } => underlying_after >= 0,
            Step::Burn { underlying, .. } => underlying >= 0,
            Step::Transfer { underlying, .. } => underlying >= 0,
            Step::Approve { amount, .. } => amount <= i128::MAX,
            Step::TransferFrom { underlying, .. } => underlying >= 0,
        }
    }

    /// The state after the call: the one that the operation describes, or
    /// the state before where the operation refuses.
    pub open spec fn apply(self, v: LedgerView) -> LedgerView {
        match self {
            Step::Init { config } => match v.init_spec(config) {
                Ok(next) => next,
                Err(_) => v,
            },
            Step::Mint { to, amount, underlying_after } => match v.mint_spec(
                to,
                amount,
                underlying_after,
            ) {
                Ok(next) => next,
                Err(_) => v,
            },
            Step::Burn { from, amount, underlying } => match v.burn_spec(from, amount, underlying) {
                Ok((next, _)) => next,
                Err(_) => v,
            },
            Step::Transfer { from, to, amount, underlying } => match v.transfer_spec(
                from,
                to,
                amount,
                underlying,
            ) {
                Ok(next) => next,
                Err(_) => v,
            },
            Step::Approve { owner, spender, amount } => match v.approve_spec(
                owner,
                spender,
                amount,
            ) {
                Ok(next) => next,
                Err(_) => v,
            },
            Step::TransferFrom { spender, from, to, amount, underlying } => match v.transfer_from_spec(
                spender,
                from,
                to,
                amount,
                underlying,
            ) {
                Ok(next) => next,
                Err(_) => v,
            },
        }
    }
}

/// The state of a fresh ledger after the calls in `steps`, in their order.
pub open spec fn run(steps: Seq<Step>) -> LedgerView
    decreases steps.len(),
{
    if steps.len() == 0 {
        LedgerView::empty()
    } else {
        steps.last().apply(run(steps.drop_last()))
    }
}

/// No call breaks a ledger: a well-formed state whose holders' shares add up
/// to the total is followed by one.
pub proof fn theorem_step_conserves(v: LedgerView, step: Step)
    requires
        v.well_formed(),
        v.conserved(),
        step.admissible(),
    ensures
        step.apply(v).well_formed(),
        step.apply(v).conserved(),
{
    match step {
        Step::Init { config } => {},
        Step::Mint { to, amount, underlying_after } => {
            v.lemma_mint(to, amount, underlying_after);
        },
        Step::Burn { from, amount, underlying } => {
            v.lemma_burn(from, amount, underlying);
        },
        Step::Transfer { from, to, amount, underlying } => {
            v.lemma_transfer(from, to, amount, underlying);
        },
        Step::Approve { owner, spender, amount } => {
            v.lemma_approve(owner, spender, amount);
        },
        Step::TransferFrom { spender, from, to, amount, underlying } => {
            v.lemma_transfer_from(spender, from, to, amount, underlying);
        },
    }
}

/// After any sequence of calls on a fresh ledger, the holders' shares add up
/// to the total.
pub proof fn theorem_every_history_conserves(steps: Seq<Step>)
    requires
        forall|i: int| 0 <= i < steps.len() ==> (#[trigger] steps[i]).admissible(),
    ensures
        run(steps).well_formed(),
        run(steps).conserved(),
    decreases steps.len(),
{
    if steps.len() > 0 {
        theorem_every_history_conserves(steps.drop_last());
        theorem_step_conserves(run(steps.drop_last()), steps.last());
    }
}

/// After any sequence of calls on a fresh ledger, the balances of all
/// holders together, and so those of any holders each counted once, do not
/// exceed the reserve, whatever it holds.
pub proof fn theorem_every_history_is_solvent(
    steps: Seq<Step>,
    holders: Seq<Address>,
    underlying: int,
)
    requires
        forall|i: int| 0 <= i < steps.len() ==> (#[trigger] steps[i]).admissible(),
        distinct(holders),
        underlying >= 0,
    ensures
        run(steps).held_value(underlying) <= underlying,
        balances_of(run(steps), holders, underlying) <= underlying,
{
    theorem_every_history_conserves(steps);
    theorem_solvency(run(steps), underlying);
    theorem_balances_within_reserve(run(steps), holders, underlying);
}

} // verus!
