//! Reading the ledger.
use crate::ledger::amount_or_zero;
use crate::msg::{BalanceResponse, TotalStackedResponse};
use crate::state::Staking;
use vstd::prelude::*;

verus! {

/// The rewards `address` has earned, zero where it has no record.
fn earned_amount(staking: &Staking, address: &String) -> (amount: u128)
    requires
        staking.wf(),
    ensures
        amount == amount_or_zero(staking@.earnings, address@),
{
    match staking.earnings_of(address) {
        Some(amount) => amount,
        None => 0,
    }
}

/// Check the balance for the given address, including accrued earnings
pub fn balance(staking: &Staking, address: String) -> (res: BalanceResponse)
    requires
        staking.wf(),
    ensures
        res.amount == amount_or_zero(staking@.deposits, address@),
        res.denom@ == staking@.stakable_denom,
        res.earned == amount_or_zero(staking@.earnings, address@),
        res.earned_denom@ == staking@.incensitive_denom,
{
    let denom = staking.state().stakable_denom.clone();
    let earned = earned_amount(staking, &address);
    let earned_denom = staking.state().incensitive_denom.clone();
    match staking.deposit_of(&address) {
        Some(amount) => BalanceResponse { amount, denom, earned, earned_denom },
        None => BalanceResponse { amount: 0, denom, earned, earned_denom },
    }
}

/// The total amount stacked in this contract
pub fn total_stacked(staking: &Staking) -> (res: TotalStackedResponse)
    ensures
        res.amount == staking@.total_stacked,
        res.denom@ == staking@.stakable_denom,
{
    TotalStackedResponse {
        amount: staking.state().total_stacked,
        denom: staking.state().stakable_denom.clone(),
    }
}

/// Return the accumulated earnings
pub fn earned(staking: &Staking, address: String) -> (res: BalanceResponse)
    requires
        staking.wf(),
    ensures
        res.amount == amount_or_zero(staking@.earnings, address@),
        res.denom@ == staking@.incensitive_denom,
        res.earned == res.amount,
        res.earned_denom@ == staking@.incensitive_denom,
{
    let amount = earned_amount(staking, &address);
    BalanceResponse {
        amount,
        denom: staking.state().incensitive_denom.clone(),
        earned: amount,
        earned_denom: staking.state().incensitive_denom.clone(),
    }
}

} // verus!
