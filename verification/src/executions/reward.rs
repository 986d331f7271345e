//! Rewards: their sharing among the stakers, and their claim.
use crate::error::{is_zero_amount_error, ContractError};
use crate::ledger::{amount_or_zero, lemma_entry_within_sum, lemma_map_at};
use crate::laws::lemma_rewards_within_received;
use crate::msg::{method_attributes, MessageInfo, Response, ResponseView};
use crate::state::{accrue, shares_sum, Staking, StakingView};
use crate::utils::decimal::{compute_reward_share, reward_share};
use crate::utils::denom::{send_balance, transfer, Denom, DenomView, SubMsgView};
use vstd::prelude::*;

verus! {

/// A reward is taken when funds come with it and the first of them are coins
/// of the incentive denomination.
pub open spec fn reward_accepted(pre: StakingView, info: MessageInfo) -> bool {
    &&& info.funds.len() > 0
    &&& DenomView::Native(info.funds[0].denom@) == pre.incensitive_denom
}

/// Sharing a reward of `received` neither divides by a zero total nor
/// overflows anyone's earnings. (Otherwise `Decimal::from_ratio` or the
/// addition panics.)
pub open spec fn sharing_fits(pre: StakingView, received: nat) -> bool {
    &&& pre.total_stacked > 0 || pre.deposits.dom() == Set::<Seq<char>>::empty()
    &&& forall|k: Seq<char>|
        #[trigger] pre.deposits.contains_key(k) ==> amount_or_zero(pre.earnings, k) + reward_share(
            received,
            pre.deposits[k],
            pre.total_stacked,
        ) <= u128::MAX
}

/// A reward that would be taken can be shared.
pub open spec fn deposit_rewards_allowed(pre: StakingView, info: MessageInfo) -> bool {
    reward_accepted(pre, info) ==> sharing_fits(pre, info.funds[0].amount as nat)
}

/// The ledger after a reward of `received` is shared.
pub open spec fn after_reward(pre: StakingView, received: nat) -> StakingView {
    StakingView { earnings: accrue(pre.earnings, pre.deposits, received, pre.total_stacked), ..pre }
}

/// What `deposit_rewards` does with the funds of `info`.
pub open spec fn deposit_rewards_outcome(
    pre: StakingView,
    post: StakingView,
    info: MessageInfo,
    res: Result<Response, ContractError>,
) -> bool {
    if info.funds.len() == 0 {
        &&& res matches Err(ContractError::NoReward {  })
        &&& post == pre
    } else if DenomView::Native(info.funds[0].denom@) != pre.incensitive_denom {
        &&& res matches Err(ContractError::InvalidRewardDenomination { expected, received })
            && expected@ == pre.incensitive_denom && received@ == DenomView::Native(
            info.funds[0].denom@,
        )
        &&& post == pre
    } else {
        &&& res matches Ok(r) && r@ == (ResponseView {
            messages: Seq::<SubMsgView>::empty(),
            attributes: method_attributes("deposit_rewards"@),
        })
        &&& post == after_reward(pre, info.funds[0].amount as nat)
    }
}

/// Deposit the rewards
pub fn deposit_rewards(staking: &mut Staking, info: MessageInfo) -> (res: Result<Response, ContractError>)
    requires
        old(staking).wf(),
        deposit_rewards_allowed(old(staking)@, info),
    ensures
        final(staking).wf(),
        deposit_rewards_outcome(old(staking)@, final(staking)@, info, res),
        res is Ok ==> final(staking).earned_sum() == old(staking).earned_sum() + shares_sum(
            old(staking).deposit_entries(),
            info.funds[0].amount as nat,
            old(staking)@.total_stacked,
        ),
        res is Ok ==> final(staking).earned_sum() <= old(staking).earned_sum() + info.funds[0].amount,
{
    // validate we received a reward
    if info.funds.len() == 0 {
        return Err(ContractError::NoReward {  });
    }
    // validate the incensitive received is what we expect
    let received = &info.funds[0];
    let received_denom = Denom::Native(received.denom.clone());
    if received_denom != staking.state().incensitive_denom {
        return Err(
            ContractError::InvalidRewardDenomination {
                expected: staking.state().incensitive_denom.clone(),
                received: received_denom,
            },
        );
    }
    // The amount a staker is entitled to is :
    // incensitive = total_received * (stacked / total stacked)
    proof {
        let d = staking.deposit_entries();
        if staking@.total_stacked > 0 {
            lemma_rewards_within_received(d, received.amount as nat, staking@.total_stacked);
        } else if d.len() > 0 {
            lemma_map_at(d, 0);
            assert(staking@.deposits.dom().contains(d[0].owner@));
        }
    }
    staking.accrue_rewards(received.amount);
    Ok(Response::new().add_attribute("method", "deposit_rewards".to_owned()))
}

/// What `claim` does when `holder` asks for its earnings.
pub open spec fn claim_outcome(
    pre: StakingView,
    post: StakingView,
    holder: Seq<char>,
    res: Result<Response, ContractError>,
) -> bool {
    if !pre.earnings.contains_key(holder) {
        &&& res matches Ok(r) && r@ == (ResponseView {
            messages: Seq::<SubMsgView>::empty(),
            attributes: Seq::<(Seq<char>, Seq<char>)>::empty(),
        })
        &&& post == pre
    } else if pre.earnings[holder] == 0 {
        &&& res matches Err(e) && is_zero_amount_error(e)
        &&& post == pre
    } else {
        &&& res matches Ok(r) && r@ == (ResponseView {
            messages: seq![transfer(holder, pre.earnings[holder], pre.incensitive_denom)],
            attributes: Seq::<(Seq<char>, Seq<char>)>::empty(),
        })
        &&& post == (StakingView { earnings: pre.earnings.remove(holder), ..pre })
    }
}

/// claim any accrued rewards
pub fn claim(staking: &mut Staking, info: MessageInfo) -> (res: Result<Response, ContractError>)
    requires
        old(staking).wf(),
    ensures
        final(staking).wf(),
        claim_outcome(old(staking)@, final(staking)@, info.sender@, res),
{
    let earnings = staking.earnings_of(&info.sender);
    // we got nothing to send
    if earnings.is_none() {
        return Ok(Response::new());
    }
    let earnings = earnings.unwrap();
    // generate transfer message
    let transfer_msg = match send_balance(&info.sender, earnings, staking.state().incensitive_denom.clone()) {
        Ok(m) => m,
        Err(e) => return Err(e),
    };
    // remove claimed earnings
    let _ = staking.take_earnings(&info.sender);
    Ok(Response::new().add_submessage(transfer_msg))
}

/// Whether a reward of `received` can be shared without a division by zero
/// or an overflow; the test to make before `deposit_rewards`.
pub fn sharing_fits_check(staking: &Staking, received: u128) -> (fits: bool)
    requires
        staking.wf(),
    ensures
        fits == sharing_fits(staking@, received as nat),
{
    let entries = staking.deposited();
    let total = staking.state().total_stacked;
    let ghost pre = staking@;
    if entries.len() > 0 {
        proof {
            lemma_map_at(entries@, 0);
            assert(pre.deposits.dom().contains(entries@[0].owner@));
        }
    } else {
        proof {
            assert(pre.deposits.dom() =~= Set::<Seq<char>>::empty());
        }
    }
    if total == 0 {
        return entries.len() == 0;
    }
    let mut i: usize = 0;
    while i < entries.len()
        invariant
            i <= entries.len(),
            entries@ == staking.deposit_entries(),
            staking.wf(),
            pre == staking@,
            total == pre.total_stacked,
            total > 0,
            forall|j: int|
                0 <= j < i ==> amount_or_zero(pre.earnings, #[trigger] entries@[j].owner@) + reward_share(
                    received as nat,
                    entries@[j].amount as nat,
                    total as nat,
                ) <= u128::MAX,
        decreases entries.len() - i,
    {
        proof {
            lemma_entry_within_sum(entries@, i as int);
        }
        let share = compute_reward_share(received, entries[i].amount, total);
        let earned = match staking.earnings_of(&entries[i].owner) {
            Some(a) => a,
            None => 0,
        };
        if share > u128::MAX - earned {
            proof {
                lemma_map_at(entries@, i as int);
                let k = entries@[i as int].owner@;
                assert(pre.deposits.contains_key(k));
                assert(amount_or_zero(pre.earnings, k) == earned);
                assert(!(amount_or_zero(pre.earnings, k) + reward_share(
                    received as nat,
                    pre.deposits[k],
                    pre.total_stacked,
                ) <= u128::MAX));
            }
            return false;
        }
        i = i + 1;
    }
    proof {
        assert forall|k: Seq<char>| #[trigger] pre.deposits.contains_key(k) implies amount_or_zero(
            pre.earnings,
            k,
        ) + reward_share(received as nat, pre.deposits[k], pre.total_stacked) <= u128::MAX by {
            let j = choose|j: int| 0 <= j < entries@.len() && #[trigger] entries@[j].owner@ == k;
            lemma_map_at(entries@, j);
        }
    }
    true
}

} // verus!
