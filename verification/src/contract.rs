//! The ledger's entry points: setting it up, running a request, answering a query.
use crate::error::ContractError;
use crate::executions::reward::{
    sharing_fits_check, claim, claim_outcome, deposit_rewards, deposit_rewards_allowed, deposit_rewards_outcome,
};
use crate::executions::stacking::{
    receive_cw20, receive_cw20_allowed, receive_cw20_outcome, withdraw_cw20, withdraw_outcome,
};
use crate::ledger::amount_or_zero;
use crate::msg::{ExecuteMsg, InstantiateMsg, MessageInfo, QueryMsg, QueryResponse, Response, ResponseView};
use crate::queries;
use crate::state::{Staking, StakingView};
use crate::utils::denom::{denom_stringify, denom_text, Denom, SubMsgView};
use vstd::prelude::*;

verus! {

/// The answer to the set-up of a ledger for `msg`.
pub open spec fn instantiate_response(msg: InstantiateMsg) -> ResponseView {
    ResponseView {
        messages: Seq::<SubMsgView>::empty(),
        attributes: seq![
            ("method"@, "instantiate"@),
            ("incensitive asset"@, denom_text(msg.incensitive_denom@)),
            ("stackable asset"@, denom_text(msg.stakable_denom@)),
        ],
    }
}

/// Sets up a ledger with the denominations of `msg`, nothing staked and
/// nothing earned.
pub fn instantiate(msg: InstantiateMsg) -> (res: (Staking, Response))
    ensures
        res.0.wf(),
        res.0@ == (StakingView {
            incensitive_denom: msg.incensitive_denom@,
            stakable_denom: msg.stakable_denom@,
            total_stacked: 0,
            deposits: Map::empty(),
            earnings: Map::empty(),
        }),
        res.0.earned_sum() == 0,
        res.1@ == instantiate_response(msg),
{
    let incensitive_text = denom_stringify(&msg.incensitive_denom);
    let stakable_text = denom_stringify(&msg.stakable_denom);
    let staking = Staking::new(msg.incensitive_denom, msg.stakable_denom);
    let response = Response::new().add_attribute("method", "instantiate".to_owned()).add_attribute(
        "incensitive asset",
        incensitive_text,
    ).add_attribute("stackable asset", stakable_text);
    proof {
        assert(response@.attributes =~= instantiate_response(msg).attributes);
    }
    (staking, response)
}

/// A request that the ledger can run without panicking.
pub open spec fn execute_allowed(pre: StakingView, info: MessageInfo, msg: ExecuteMsg) -> bool {
    match msg {
        ExecuteMsg::Receive(wrapper) => receive_cw20_allowed(pre, info.sender@, wrapper),
        ExecuteMsg::Reward {  } => deposit_rewards_allowed(pre, info),
        _ => true,
    }
}

/// What running `msg`, sent with `info`, does.
pub open spec fn execute_outcome(
    pre: StakingView,
    post: StakingView,
    info: MessageInfo,
    msg: ExecuteMsg,
    res: Result<Response, ContractError>,
) -> bool {
    match msg {
        ExecuteMsg::Receive(wrapper) => receive_cw20_outcome(pre, post, info.sender@, wrapper, res),
        ExecuteMsg::Withdraw { amount } => withdraw_outcome(pre, post, info.sender@, amount, res),
        ExecuteMsg::Reward {  } => deposit_rewards_outcome(pre, post, info, res),
        ExecuteMsg::Claim {  } => claim_outcome(pre, post, info.sender@, res),
    }
}

/// Runs a request against the ledger.
pub fn execute(staking: &mut Staking, info: MessageInfo, msg: ExecuteMsg) -> (res: Result<Response, ContractError>)
    requires
        old(staking).wf(),
        execute_allowed(old(staking)@, info, msg),
    ensures
        final(staking).wf(),
        execute_outcome(old(staking)@, final(staking)@, info, msg, res),
{
    match msg {
        ExecuteMsg::Receive(msg) => receive_cw20(staking, info, msg),
        ExecuteMsg::Withdraw { amount } => withdraw_cw20(staking, info, amount),
        ExecuteMsg::Reward {  } => deposit_rewards(staking, info),
        ExecuteMsg::Claim {  } => claim(staking, info),
    }
}

/// Answers a query about the ledger.
pub fn query(staking: &Staking, msg: QueryMsg) -> (res: QueryResponse)
    requires
        staking.wf(),
    ensures
        match msg {
            QueryMsg::Balance { address } => res matches QueryResponse::Balance(b) && b.amount
                == amount_or_zero(staking@.deposits, address@) && b.denom@ == staking@.stakable_denom
                && b.earned == amount_or_zero(staking@.earnings, address@) && b.earned_denom@
                == staking@.incensitive_denom,
            QueryMsg::TotalDeposited {  } => res matches QueryResponse::TotalDeposited(t) && t.amount
                == staking@.total_stacked && t.denom@ == staking@.stakable_denom,
            QueryMsg::Earned { address } => res matches QueryResponse::Earned(b) && b.amount
                == amount_or_zero(staking@.earnings, address@) && b.denom@ == staking@.incensitive_denom
                && b.earned == b.amount && b.earned_denom@ == staking@.incensitive_denom,
        },
{
    match msg {
        QueryMsg::Balance { address } => QueryResponse::Balance(queries::balance(staking, address)),
        QueryMsg::TotalDeposited {  } => QueryResponse::TotalDeposited(queries::total_stacked(staking)),
        QueryMsg::Earned { address } => QueryResponse::Earned(queries::earned(staking, address)),
    }
}

/// Whether the ledger can run `msg`, sent with `info`, without panicking; the
/// test to make before `execute`.
pub fn execute_allowed_check(staking: &Staking, info: &MessageInfo, msg: &ExecuteMsg) -> (allowed: bool)
    requires
        staking.wf(),
    ensures
        allowed == execute_allowed(staking@, *info, *msg),
{
    match msg {
        ExecuteMsg::Receive(wrapper) => {
            if staking.state().stakable_denom == Denom::Cw20(info.sender.clone()) {
                wrapper.amount <= u128::MAX - staking.state().total_stacked
            } else {
                true
            }
        },
        ExecuteMsg::Reward {  } => {
            if info.funds.len() > 0 && Denom::Native(info.funds[0].denom.clone())
                == staking.state().incensitive_denom {
                sharing_fits_check(staking, info.funds[0].amount)
            } else {
                true
            }
        },
        _ => true,
    }
}

} // verus!
