//! Deposits of the stakable token, and their withdrawal.
use crate::error::{is_zero_amount_error, ContractError};
use crate::ledger::amount_or_zero;
use crate::msg::{method_attributes, Cw20ReceiveMsg, MessageInfo, ReceiveMsg, Response, ResponseView};
use crate::state::{Staking, StakingView};
use crate::utils::denom::{denom_stringify, send_balance, transfer, Denom, DenomView, SubMsgView};
use crate::utils::text::{decimal_digits, u128_to_string};
use vstd::prelude::*;

verus! {

/// Tokens that arrive from the cw20 contract `token` are taken as a deposit
/// when `token` is the stakable asset.
pub open spec fn deposit_accepted(pre: StakingView, token: Seq<char>) -> bool {
    pre.stakable_denom == DenomView::Cw20(token)
}

/// The ledger after `holder` deposits `amount`.
pub open spec fn after_deposit(pre: StakingView, holder: Seq<char>, amount: nat) -> StakingView {
    StakingView {
        total_stacked: pre.total_stacked + amount,
        deposits: pre.deposits.insert(holder, amount_or_zero(pre.deposits, holder) + amount),
        ..pre
    }
}

/// A deposit that would be taken fits in the total. (Beyond it, the addition
/// panics.)
pub open spec fn receive_cw20_allowed(pre: StakingView, token: Seq<char>, wrapper: Cw20ReceiveMsg) -> bool {
    deposit_accepted(pre, token) ==> pre.total_stacked + wrapper.amount <= u128::MAX
}

/// What `deposit_cw20` does with `wrapper.amount` tokens from `token`.
pub open spec fn deposit_cw20_outcome(
    pre: StakingView,
    post: StakingView,
    token: Seq<char>,
    wrapper: Cw20ReceiveMsg,
    res: Result<Response, ContractError>,
) -> bool {
    if deposit_accepted(pre, token) {
        &&& res matches Ok(r) && r@ == (ResponseView {
            messages: Seq::<SubMsgView>::empty(),
            attributes: method_attributes("deposit"@),
        })
        &&& post == after_deposit(pre, wrapper.sender@, wrapper.amount as nat)
    } else {
        &&& res matches Err(ContractError::UnsupportedDeposit { denom }) && denom@ == token
        &&& post == pre
    }
}

/// What `receive_cw20` does with tokens from `token` announced by `wrapper`:
/// it carries out the instruction that came with them.
pub open spec fn receive_cw20_outcome(
    pre: StakingView,
    post: StakingView,
    token: Seq<char>,
    wrapper: Cw20ReceiveMsg,
    res: Result<Response, ContractError>,
) -> bool {
    match wrapper.msg {
        ReceiveMsg::Deposit {  } => deposit_cw20_outcome(pre, post, token, wrapper, res),
    }
}

/// Deposit cw20 token
fn deposit_cw20(staking: &mut Staking, info: MessageInfo, wrapper: Cw20ReceiveMsg) -> (res: Result<Response, ContractError>)
    requires
        old(staking).wf(),
        receive_cw20_allowed(old(staking)@, info.sender@, wrapper),
    ensures
        final(staking).wf(),
        final(staking).earned_sum() == old(staking).earned_sum(),
        deposit_cw20_outcome(old(staking)@, final(staking)@, info.sender@, wrapper, res),
{
    // check what cw20 we received and how much we recived
    let denom_received = Denom::Cw20(info.sender);
    let amount_received = wrapper.amount;
    let sender = wrapper.sender;
    // reject deposit of an unexpected type
    if staking.state().stakable_denom != denom_received {
        return Err(ContractError::UnsupportedDeposit { denom: denom_stringify(&denom_received) });
    }
    // register the deposit: a new entry for a new holder, else a larger one
    staking.credit_deposit(&sender, amount_received);
    Ok(Response::new().add_attribute("method", "deposit".to_owned()))
}

/// Deposit the asset being stacked
pub fn receive_cw20(staking: &mut Staking, info: MessageInfo, wrapper: Cw20ReceiveMsg) -> (res: Result<Response, ContractError>)
    requires
        old(staking).wf(),
        receive_cw20_allowed(old(staking)@, info.sender@, wrapper),
    ensures
        final(staking).wf(),
        final(staking).earned_sum() == old(staking).earned_sum(),
        receive_cw20_outcome(old(staking)@, final(staking)@, info.sender@, wrapper, res),
{
    match wrapper.msg {
        ReceiveMsg::Deposit {  } => deposit_cw20(staking, info, wrapper),
    }
}

/// The ledger after `holder` withdraws `amount` of its deposit: a deposit
/// that comes to zero is closed, and so is the holder's earnings record.
pub open spec fn after_withdraw(pre: StakingView, holder: Seq<char>, amount: nat) -> StakingView {
    if pre.deposits[holder] == amount {
        StakingView {
            total_stacked: (pre.total_stacked - amount) as nat,
            deposits: pre.deposits.remove(holder),
            earnings: pre.earnings.remove(holder),
            ..pre
        }
    } else {
        StakingView {
            total_stacked: (pre.total_stacked - amount) as nat,
            deposits: pre.deposits.insert(holder, (pre.deposits[holder] - amount) as nat),
            ..pre
        }
    }
}

/// The answer to `holder`'s withdrawal of `amount`: the stakable tokens go
/// back to it, and so do its earnings when it withdraws all it holds.
pub open spec fn withdraw_response(pre: StakingView, holder: Seq<char>, amount: nat) -> ResponseView {
    let left = (pre.deposits[holder] - amount) as nat;
    ResponseView {
        messages: seq![transfer(holder, amount, pre.stakable_denom)] + if left == 0
            && pre.earnings.contains_key(holder) && pre.earnings[holder] > 0 {
            seq![transfer(holder, pre.earnings[holder], pre.incensitive_denom)]
        } else {
            Seq::<SubMsgView>::empty()
        },
        attributes: seq![("method"@, "deposit"@), ("new balance"@, decimal_digits(left))],
    }
}

/// What `withdraw_cw20` does when `holder` asks for `amount` back.
pub open spec fn withdraw_outcome(
    pre: StakingView,
    post: StakingView,
    holder: Seq<char>,
    amount: u128,
    res: Result<Response, ContractError>,
) -> bool {
    if !pre.deposits.contains_key(holder) {
        &&& res matches Err(ContractError::NoWithdrawableBalance {  })
        &&& post == pre
    } else if amount > pre.deposits[holder] {
        &&& res matches Err(ContractError::InvalidWithdrawal { available, requested })
            && available == pre.deposits[holder] && requested == amount
        &&& post == pre
    } else if amount == 0 {
        &&& res matches Err(e) && is_zero_amount_error(e)
        &&& post == pre
    } else {
        &&& res matches Ok(r) && r@ == withdraw_response(pre, holder, amount as nat)
        &&& post == after_withdraw(pre, holder, amount as nat)
    }
}

/// withdraw stacked cw20 assets
pub fn withdraw_cw20(staking: &mut Staking, info: MessageInfo, amount: u128) -> (res: Result<Response, ContractError>)
    requires
        old(staking).wf(),
    ensures
        final(staking).wf(),
        withdraw_outcome(old(staking)@, final(staking)@, info.sender@, amount, res),
{
    // Try to load the deposit from the sender
    let potential_deposit = staking.deposit_of(&info.sender);
    if let Some(deposit) = potential_deposit {
        // ensure we are not withdrawing more than available for this address
        if amount > deposit {
            return Err(ContractError::InvalidWithdrawal { available: deposit, requested: amount });
        }
        // send the cw20 token
        let stake_back = match send_balance(&info.sender, amount, staking.state().stakable_denom.clone()) {
            Ok(m) => m,
            Err(e) => return Err(e),
        };
        let mut response = Response::new().add_attribute("method", "deposit".to_owned()).add_submessage(
            stake_back,
        );
        let left = deposit - amount;
        if left == 0 {
            // a holder who leaves takes its earnings along
            if let Some(earned) = staking.earnings_of(&info.sender) {
                if earned > 0 {
                    match send_balance(&info.sender, earned, staking.state().incensitive_denom.clone()) {
                        Ok(m) => {
                            response = response.add_submessage(m);
                        },
                        Err(e) => return Err(e),
                    }
                }
            }
        }
        // update balance
        let ghost pre = staking@;
        staking.debit_deposit(&info.sender, amount);
        let response = response.add_attribute("new balance", u128_to_string(left));
        proof {
            let expected = withdraw_response(pre, info.sender@, amount as nat);
            assert(response@.messages =~= expected.messages);
            assert(response@.attributes =~= expected.attributes);
        }
        Ok(response)
    } else {
        // we have nothing for this address, return an err
        Err(ContractError::NoWithdrawableBalance {  })
    }
}

} // verus!
