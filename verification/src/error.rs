//! The errors a request to the ledger can end in.
use crate::utils::denom::Denom;
use vstd::prelude::*;

verus! {

/// A generic failure, as the chain's standard library reports it.
#[derive(Debug)]
pub enum StdError {
    GenericErr { msg: String },
}

/// Why the ledger refused a request.
#[derive(Debug)]
pub enum ContractError {
    Std(StdError),
    Unauthorized {},
    UnsupportedDeposit { denom: String },
    NoWithdrawableBalance {},
    InvalidWithdrawal { available: u128, requested: u128 },
    NoReward {},
    InvalidRewardDenomination { expected: Denom, received: Denom },
}

/// The text of the error for a transfer of nothing.
pub open spec fn zero_amount_text() -> Seq<char> {
    seq!['C', 'a', 'n', 'n', 'o', 't', ' ', 's', 'e', 'n', 'd', ' ', '0', ' ', 'a', 'm', 'o', 'u', 'n', 't']
}

/// `e` is the error for a transfer of nothing.
pub open spec fn is_zero_amount_error(e: ContractError) -> bool {
    e matches ContractError::Std(StdError::GenericErr { msg }) && msg@ == zero_amount_text()
}

} // verus!
