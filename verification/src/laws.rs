//! What holds of the ledger across its operations.
use crate::contract::execute_outcome;
use crate::error::ContractError;
use crate::executions::reward::{claim_outcome, deposit_rewards_outcome};
use crate::executions::stacking::{
    after_deposit, after_withdraw, withdraw_response, deposit_cw20_outcome, receive_cw20_outcome, withdraw_outcome,
};
use crate::ledger::{amount_or_zero, amounts_sum};
use crate::msg::{Cw20ReceiveMsg, ExecuteMsg, MessageInfo, ReceiveMsg, Response};
use crate::state::{shares_sum, Balance, StakingView};
use crate::utils::decimal::{mul_atomics, ratio_atomics, reward_share, DECIMAL_FRACTIONAL};
use crate::utils::denom::{transfer, DenomView, SubMsgView};
use vstd::arithmetic::div_mod::{lemma_fundamental_div_mod, lemma_mod_pos_bound};
use vstd::prelude::*;

verus! {

proof fn lemma_share_times_total(received: nat, stake: nat, total: nat)
    requires
        total > 0,
    ensures
        total * reward_share(received, stake, total) <= received * stake,
{
    let e = DECIMAL_FRACTIONAL as nat;
    let q = ratio_atomics(stake, total);
    let m = mul_atomics(received, q);
    assert(q * total <= stake * e) by (nonlinear_arith)
        requires
            q == (stake * e) / total,
            total > 0,
    ;
    assert(m * e <= received * q) by (nonlinear_arith)
        requires
            m == (received * q) / e,
            e > 0,
    ;
    assert(m * total * e <= received * stake * e) by (nonlinear_arith)
        requires
            q * total <= stake * e,
            m * e <= received * q,
    ;
    assert(m * total <= received * stake) by (nonlinear_arith)
        requires
            m * total * e <= received * stake * e,
            e > 0,
    ;
    assert(total * m == m * total) by (nonlinear_arith);
}

proof fn lemma_shares_times_total(s: Seq<Balance>, received: nat, total: nat)
    requires
        total > 0,
    ensures
        total * shares_sum(s, received, total) <= received * amounts_sum(s),
    decreases s.len(),
{
    if s.len() == 0 {
        assert(total * 0 <= received * 0) by (nonlinear_arith);
    } else {
        let rest = s.drop_last();
        let a = s.last().amount as nat;
        lemma_shares_times_total(rest, received, total);
        lemma_share_times_total(received, a, total);
        let x = shares_sum(rest, received, total);
        let y = reward_share(received, a, total);
        assert(total * (x + y) <= received * (amounts_sum(rest) + a)) by (nonlinear_arith)
            requires
                total * x <= received * amounts_sum(rest),
                total * y <= received * a,
        ;
        assert(shares_sum(s, received, total) == x + y);
        assert(amounts_sum(s) == amounts_sum(rest) + a);
    }
}

/// A reward is never shared out beyond what was received: when the deposits
/// add up to the total staked, the parts that they earn add up to at most the
/// reward.
pub proof fn lemma_rewards_within_received(deposits: Seq<Balance>, received: nat, total: nat)
    requires
        amounts_sum(deposits) == total,
        total > 0,
    ensures
        shares_sum(deposits, received, total) <= received,
{
    lemma_shares_times_total(deposits, received, total);
    let x = shares_sum(deposits, received, total);
    assert(x <= received) by (nonlinear_arith)
        requires
            total * x <= received * total,
            total > 0,
    ;
}

/// A larger stake never earns a smaller part of the same reward.
pub proof fn lemma_larger_stake_larger_share(received: nat, stake1: nat, stake2: nat, total: nat)
    requires
        stake1 <= stake2,
        total > 0,
    ensures
        reward_share(received, stake1, total) <= reward_share(received, stake2, total),
{
    let e = DECIMAL_FRACTIONAL as nat;
    assert(stake1 * e <= stake2 * e) by (nonlinear_arith)
        requires
            stake1 <= stake2,
    ;
    assert((stake1 * e) / total <= (stake2 * e) / total) by (nonlinear_arith)
        requires
            stake1 * e <= stake2 * e,
            total > 0,
    ;
    let q1 = ratio_atomics(stake1, total);
    let q2 = ratio_atomics(stake2, total);
    assert(received * q1 <= received * q2) by (nonlinear_arith)
        requires
            q1 <= q2,
    ;
    assert((received * q1) / e <= (received * q2) / e) by (nonlinear_arith)
        requires
            received * q1 <= received * q2,
            e > 0,
    ;
}

/// A holder's balance after a deposit is what it held before plus the deposit,
/// and no one else's balance moves.
pub proof fn lemma_deposit_credits_depositor(pre: StakingView, holder: Seq<char>, amount: nat, other: Seq<char>)
    requires
        other != holder,
    ensures
        amount_or_zero(after_deposit(pre, holder, amount).deposits, holder) == amount_or_zero(
            pre.deposits,
            holder,
        ) + amount,
        amount_or_zero(after_deposit(pre, holder, amount).deposits, other) == amount_or_zero(
            pre.deposits,
            other,
        ),
        after_deposit(pre, holder, amount).total_stacked == pre.total_stacked + amount,
{
}

/// No one holds unclaimed rewards without holding a deposit.
pub open spec fn earnings_backed(v: StakingView) -> bool {
    forall|k: Seq<char>| #[trigger] v.earnings.contains_key(k) ==> v.deposits.contains_key(k)
}

/// Withdrawing what one has just deposited gives back the ledger as it was
/// before the deposit, as long as rewards are held only by stakers and the
/// depositor held no empty deposit record.
pub proof fn lemma_withdraw_undoes_deposit(pre: StakingView, holder: Seq<char>, amount: nat)
    requires
        earnings_backed(pre),
        pre.deposits.contains_key(holder) ==> pre.deposits[holder] > 0,
        amount > 0,
    ensures
        after_withdraw(after_deposit(pre, holder, amount), holder, amount) == pre,
{
    let mid = after_deposit(pre, holder, amount);
    let post = after_withdraw(mid, holder, amount);
    if pre.deposits.contains_key(holder) {
        assert(post.deposits =~= pre.deposits);
    } else {
        assert(post.deposits =~= pre.deposits);
        assert(post.earnings =~= pre.earnings);
    }
}

/// A refused request leaves the ledger as it was.
pub proof fn lemma_refusal_changes_nothing(
    pre: StakingView,
    post: StakingView,
    info: MessageInfo,
    msg: ExecuteMsg,
    res: Result<Response, ContractError>,
)
    requires
        execute_outcome(pre, post, info, msg, res),
        res is Err,
    ensures
        post == pre,
{
}

/// Every request keeps rewards in the hands of stakers only.
pub proof fn lemma_execute_keeps_earnings_backed(
    pre: StakingView,
    post: StakingView,
    info: MessageInfo,
    msg: ExecuteMsg,
    res: Result<Response, ContractError>,
)
    requires
        earnings_backed(pre),
        execute_outcome(pre, post, info, msg, res),
    ensures
        earnings_backed(post),
{
}

/// Rewards and claims move neither a deposit nor the total staked.
pub proof fn lemma_rewards_and_claims_keep_stakes(
    pre: StakingView,
    post: StakingView,
    info: MessageInfo,
    msg: ExecuteMsg,
    res: Result<Response, ContractError>,
)
    requires
        msg is Reward || msg is Claim,
        execute_outcome(pre, post, info, msg, res),
    ensures
        post.deposits == pre.deposits,
        post.total_stacked == pre.total_stacked,
{
}

/// After a claim that succeeds, the claimant has nothing left to claim.
pub proof fn lemma_claim_empties_earnings(
    pre: StakingView,
    post: StakingView,
    holder: Seq<char>,
    res: Result<Response, ContractError>,
)
    requires
        claim_outcome(pre, post, holder, res),
        res is Ok,
    ensures
        amount_or_zero(post.earnings, holder) == 0,
{
}

/// Receiving tokens with a deposit instruction does what `deposit_cw20` does.
pub proof fn lemma_receive_is_deposit(
    pre: StakingView,
    post: StakingView,
    token: Seq<char>,
    wrapper: Cw20ReceiveMsg,
    res: Result<Response, ContractError>,
)
    requires
        wrapper.msg == (ReceiveMsg::Deposit {}),
    ensures
        receive_cw20_outcome(pre, post, token, wrapper, res) == deposit_cw20_outcome(
            pre,
            post,
            token,
            wrapper,
            res,
        ),
{
}

/// Two deposits by one holder that both succeed leave the ledger as one
/// deposit of their sum does.
pub proof fn lemma_two_deposits_are_one(
    pre: StakingView,
    mid: StakingView,
    post: StakingView,
    token: Seq<char>,
    first: Cw20ReceiveMsg,
    second: Cw20ReceiveMsg,
    res1: Result<Response, ContractError>,
    res2: Result<Response, ContractError>,
)
    requires
        deposit_cw20_outcome(pre, mid, token, first, res1),
        deposit_cw20_outcome(mid, post, token, second, res2),
        first.sender@ == second.sender@,
        res1 is Ok,
        res2 is Ok,
    ensures
        post == after_deposit(pre, first.sender@, first.amount as nat + second.amount as nat),
{
    let h = first.sender@;
    assert(post.deposits =~= after_deposit(pre, h, first.amount as nat + second.amount as nat).deposits);
}

/// What message `m` sends to `holder` in `asset`.
pub open spec fn amount_sent_to(m: SubMsgView, holder: Seq<char>, asset: DenomView) -> nat {
    match m {
        SubMsgView::BankSend { to_address, amount, denom } => if to_address == holder && asset
            == DenomView::Native(denom) {
            amount
        } else {
            0
        },
        SubMsgView::Cw20Transfer { contract_addr, recipient, amount } => if recipient == holder
            && asset == DenomView::Cw20(contract_addr) {
            amount
        } else {
            0
        },
    }
}

/// What the messages `msgs` send to `holder` in `asset`, all together.
pub open spec fn total_sent_to(msgs: Seq<SubMsgView>, holder: Seq<char>, asset: DenomView) -> nat
    decreases msgs.len(),
{
    if msgs.len() == 0 {
        0
    } else {
        total_sent_to(msgs.drop_last(), holder, asset) + amount_sent_to(msgs.last(), holder, asset)
    }
}

/// What the answer to a request sends to `holder` in `asset`; a refused
/// request sends nothing.
pub open spec fn sent_by(res: Result<Response, ContractError>, holder: Seq<char>, asset: DenomView) -> nat {
    match res {
        Ok(r) => total_sent_to(r@.messages, holder, asset),
        Err(_) => 0,
    }
}

/// What the ledger owes `holder` in `asset`: its deposit when `asset` is the
/// stakable one, and its earnings when `asset` is the incentive one.
pub open spec fn holdings(v: StakingView, holder: Seq<char>, asset: DenomView) -> nat {
    (if v.stakable_denom == asset {
        amount_or_zero(v.deposits, holder)
    } else {
        0nat
    }) + (if v.incensitive_denom == asset {
        amount_or_zero(v.earnings, holder)
    } else {
        0nat
    })
}

/// What a request credits to `holder` in `asset`: a deposit it makes, or its
/// part of a reward.
pub open spec fn credited_by(
    pre: StakingView,
    info: MessageInfo,
    msg: ExecuteMsg,
    res: Result<Response, ContractError>,
    holder: Seq<char>,
    asset: DenomView,
) -> nat {
    if res is Err {
        0
    } else {
        match msg {
            ExecuteMsg::Receive(wrapper) => if wrapper.sender@ == holder && pre.stakable_denom == asset {
                wrapper.amount as nat
            } else {
                0
            },
            ExecuteMsg::Reward {  } => if pre.incensitive_denom == asset && pre.deposits.contains_key(
                holder,
            ) {
                reward_share(info.funds[0].amount as nat, pre.deposits[holder], pre.total_stacked)
            } else {
                0
            },
            _ => 0,
        }
    }
}

proof fn lemma_sent_one(a: SubMsgView, holder: Seq<char>, asset: DenomView)
    ensures
        total_sent_to(seq![a], holder, asset) == amount_sent_to(a, holder, asset),
        total_sent_to(seq![a] + Seq::<SubMsgView>::empty(), holder, asset) == amount_sent_to(
            a,
            holder,
            asset,
        ),
{
    let one = seq![a];
    assert(one.len() == 1);
    assert(one.last() == a);
    assert(one.drop_last() =~= Seq::<SubMsgView>::empty());
    assert(total_sent_to(Seq::<SubMsgView>::empty(), holder, asset) == 0);
    assert(total_sent_to(one, holder, asset) == total_sent_to(one.drop_last(), holder, asset)
        + amount_sent_to(a, holder, asset));
    assert(one + Seq::<SubMsgView>::empty() =~= one);
}

proof fn lemma_sent_two(a: SubMsgView, b: SubMsgView, holder: Seq<char>, asset: DenomView)
    ensures
        total_sent_to(seq![a] + seq![b], holder, asset) == amount_sent_to(a, holder, asset)
            + amount_sent_to(b, holder, asset),
{
    lemma_sent_one(a, holder, asset);
    let two = seq![a] + seq![b];
    assert(two.len() == 2);
    assert(two.last() == b);
    assert(two.drop_last() =~= seq![a]);
}

proof fn lemma_transfer_sent(to: Seq<char>, amount: nat, asset: DenomView, holder: Seq<char>, d: DenomView)
    ensures
        amount_sent_to(transfer(to, amount, asset), holder, d) == if to == holder && asset == d {
            amount
        } else {
            0
        },
{
}

/// Every request keeps the books: what the ledger owes a holder in an asset,
/// plus what the request sends the holder in it, is what it owed before plus
/// what the request credits.
pub proof fn lemma_request_keeps_books(
    pre: StakingView,
    post: StakingView,
    info: MessageInfo,
    msg: ExecuteMsg,
    res: Result<Response, ContractError>,
    holder: Seq<char>,
    asset: DenomView,
)
    requires
        execute_outcome(pre, post, info, msg, res),
    ensures
        holdings(post, holder, asset) + sent_by(res, holder, asset) == holdings(pre, holder, asset)
            + credited_by(pre, info, msg, res, holder, asset),
{
    if res is Ok {
        let r = res->Ok_0;
        match msg {
            ExecuteMsg::Receive(wrapper) => {
                assert(total_sent_to(r@.messages, holder, asset) == 0);
            },
            ExecuteMsg::Withdraw { amount } => {
                let h = info.sender@;
                let t1 = transfer(h, amount as nat, pre.stakable_denom);
                lemma_transfer_sent(h, amount as nat, pre.stakable_denom, holder, asset);
                lemma_sent_one(t1, holder, asset);
                if pre.deposits[h] == amount && pre.earnings.contains_key(h) && pre.earnings[h] > 0 {
                    let t2 = transfer(h, pre.earnings[h], pre.incensitive_denom);
                    lemma_transfer_sent(h, pre.earnings[h], pre.incensitive_denom, holder, asset);
                    lemma_sent_two(t1, t2, holder, asset);
                }
            },
            ExecuteMsg::Reward {  } => {
                assert(total_sent_to(r@.messages, holder, asset) == 0);
            },
            ExecuteMsg::Claim {  } => {
                let h = info.sender@;
                if pre.earnings.contains_key(h) {
                    let t = transfer(h, pre.earnings[h], pre.incensitive_denom);
                    lemma_transfer_sent(h, pre.earnings[h], pre.incensitive_denom, holder, asset);
                    lemma_sent_one(t, holder, asset);
                } else {
                    assert(total_sent_to(r@.messages, holder, asset) == 0);
                }
            },
        }
    }
}

/// `states`, `infos`, `msgs` and `results` record a run of requests: request
/// `i`, sent with `infos[i]`, took the ledger from `states[i]` to
/// `states[i + 1]` with the answer `results[i]`.
pub open spec fn is_run(
    states: Seq<StakingView>,
    infos: Seq<MessageInfo>,
    msgs: Seq<ExecuteMsg>,
    results: Seq<Result<Response, ContractError>>,
) -> bool {
    &&& states.len() == msgs.len() + 1
    &&& infos.len() == msgs.len()
    &&& results.len() == msgs.len()
    &&& forall|i: int|
        #![trigger msgs[i]]
        0 <= i < msgs.len() ==> execute_outcome(states[i], states[i + 1], infos[i], msgs[i], results[i])
}

/// What the first `n` answers of a run send to `holder` in `asset`.
pub open spec fn run_sent(
    results: Seq<Result<Response, ContractError>>,
    n: nat,
    holder: Seq<char>,
    asset: DenomView,
) -> nat
    decreases n,
{
    if n == 0 {
        0
    } else {
        run_sent(results, (n - 1) as nat, holder, asset) + sent_by(results[n - 1], holder, asset)
    }
}

/// What the first `n` requests of a run credit to `holder` in `asset`.
pub open spec fn run_credited(
    states: Seq<StakingView>,
    infos: Seq<MessageInfo>,
    msgs: Seq<ExecuteMsg>,
    results: Seq<Result<Response, ContractError>>,
    n: nat,
    holder: Seq<char>,
    asset: DenomView,
) -> nat
    decreases n,
{
    if n == 0 {
        0
    } else {
        run_credited(states, infos, msgs, results, (n - 1) as nat, holder, asset) + credited_by(
            states[n - 1],
            infos[n - 1],
            msgs[n - 1],
            results[n - 1],
            holder,
            asset,
        )
    }
}

/// Over any run, what the ledger owes a holder at the end, plus all it sent
/// the holder, is what it owed at the start plus all it credited the holder.
pub proof fn lemma_run_keeps_books(
    states: Seq<StakingView>,
    infos: Seq<MessageInfo>,
    msgs: Seq<ExecuteMsg>,
    results: Seq<Result<Response, ContractError>>,
    n: nat,
    holder: Seq<char>,
    asset: DenomView,
)
    requires
        is_run(states, infos, msgs, results),
        n <= msgs.len(),
    ensures
        holdings(states[n as int], holder, asset) + run_sent(results, n, holder, asset) == holdings(
            states[0],
            holder,
            asset,
        ) + run_credited(states, infos, msgs, results, n, holder, asset),
    decreases n,
{
    if n > 0 {
        let i = n - 1;
        lemma_run_keeps_books(states, infos, msgs, results, (n - 1) as nat, holder, asset);
        assert(execute_outcome(states[i], states[i + 1], infos[i], msgs[i], results[i]));
        lemma_request_keeps_books(states[i], states[i + 1], infos[i], msgs[i], results[i], holder, asset);
    }
}

/// From a ledger that owes nothing, no run ever sends a holder more of an
/// asset than it credited the holder in that asset: withdrawals return no more
/// than was deposited, and claims pay no more than rewards gave.
pub proof fn lemma_payouts_within_credits(
    states: Seq<StakingView>,
    infos: Seq<MessageInfo>,
    msgs: Seq<ExecuteMsg>,
    results: Seq<Result<Response, ContractError>>,
    holder: Seq<char>,
    asset: DenomView,
)
    requires
        is_run(states, infos, msgs, results),
        states[0].deposits == Map::<Seq<char>, nat>::empty(),
        states[0].earnings == Map::<Seq<char>, nat>::empty(),
    ensures
        run_sent(results, msgs.len(), holder, asset) <= run_credited(
            states,
            infos,
            msgs,
            results,
            msgs.len(),
            holder,
            asset,
        ),
{
    lemma_run_keeps_books(states, infos, msgs, results, msgs.len(), holder, asset);
}

proof fn lemma_floor_div_above(x: nat, d: nat, q: nat)
    requires
        d > 0,
        q == x / d,
    ensures
        q * d <= x,
        x < q * d + d,
{
    lemma_fundamental_div_mod(x as int, d as int);
    lemma_mod_pos_bound(x as int, d as int);
    assert(q * d == d * q) by (nonlinear_arith);
}

/// A stake's part of a reward is its proportional part, rounded down twice
/// (once to 18 decimals of the ratio, once to a whole unit): with `E` the
/// decimals' unit,
/// `received * stake * E - (received + E) * total < share * total * E <= received * stake * E`.
pub proof fn lemma_share_is_proportional(received: nat, stake: nat, total: nat)
    requires
        total > 0,
    ensures
        reward_share(received, stake, total) * total <= received * stake,
        received * stake * (DECIMAL_FRACTIONAL as nat) < reward_share(received, stake, total) * total
            * (DECIMAL_FRACTIONAL as nat) + received * total + (DECIMAL_FRACTIONAL as nat) * total,
{
    let e = DECIMAL_FRACTIONAL as nat;
    let q = ratio_atomics(stake, total);
    let m = mul_atomics(received, q);
    lemma_share_times_total(received, stake, total);
    assert(m * total == total * m) by (nonlinear_arith);
    lemma_floor_div_above(stake * e, total, q);
    lemma_floor_div_above(received * q, e, m);
    assert(received * stake * e <= received * q * total + received * total) by (nonlinear_arith)
        requires
            stake * e < q * total + total,
    ;
    assert(received * q * total < m * e * total + e * total) by (nonlinear_arith)
        requires
            received * q < m * e + e,
            total > 0,
    ;
    assert(m * e * total == m * total * e) by (nonlinear_arith);
}

/// A deposit of the stakable token always goes through while the total does
/// not overflow, whatever its sender already holds or has earned: the sender's
/// deposit and the total grow by the amount, and nothing else changes.
/// Tokens of any other contract are refused, and only those.
pub proof fn lemma_deposit_progress(
    pre: StakingView,
    post: StakingView,
    token: Seq<char>,
    wrapper: Cw20ReceiveMsg,
    res: Result<Response, ContractError>,
)
    requires
        receive_cw20_outcome(pre, post, token, wrapper, res),
    ensures
        res is Err <==> pre.stakable_denom != DenomView::Cw20(token),
        res is Err ==> post == pre,
        res is Ok ==> {
            &&& amount_or_zero(post.deposits, wrapper.sender@) == amount_or_zero(
                pre.deposits,
                wrapper.sender@,
            ) + wrapper.amount
            &&& post.deposits.contains_key(wrapper.sender@)
            &&& forall|k: Seq<char>|
                k != wrapper.sender@ ==> #[trigger] post.deposits.contains_key(k) == pre.deposits.contains_key(k)
                    && amount_or_zero(post.deposits, k) == amount_or_zero(pre.deposits, k)
            &&& post.total_stacked == pre.total_stacked + wrapper.amount
            &&& post.earnings == pre.earnings
            &&& post.stakable_denom == pre.stakable_denom
            &&& post.incensitive_denom == pre.incensitive_denom
            &&& res->Ok_0@.messages.len() == 0
        },
{
}

/// A withdrawal of a positive amount no larger than the deposit always goes
/// through, whatever the holder has earned: it sends the amount back in the
/// stakable token first, and takes it off the deposit and off the total. It
/// is refused exactly when there is no deposit, the amount is larger, or the
/// amount is zero.
pub proof fn lemma_withdraw_progress(
    pre: StakingView,
    post: StakingView,
    holder: Seq<char>,
    amount: u128,
    res: Result<Response, ContractError>,
)
    requires
        withdraw_outcome(pre, post, holder, amount, res),
        pre.deposits.contains_key(holder) ==> pre.deposits[holder] <= pre.total_stacked,
    ensures
        res is Err <==> (!pre.deposits.contains_key(holder) || amount > pre.deposits[holder] || amount
            == 0),
        res is Err ==> post == pre,
        res is Ok ==> {
            &&& amount_or_zero(post.deposits, holder) + amount == pre.deposits[holder]
            &&& post.total_stacked + amount == pre.total_stacked
            &&& res->Ok_0@.messages.len() >= 1
            &&& res->Ok_0@.messages[0] == transfer(holder, amount as nat, pre.stakable_denom)
            &&& forall|k: Seq<char>|
                k != holder ==> #[trigger] post.deposits.contains_key(k) == pre.deposits.contains_key(k)
                    && amount_or_zero(post.deposits, k) == amount_or_zero(pre.deposits, k)
                    && amount_or_zero(post.earnings, k) == amount_or_zero(pre.earnings, k)
            &&& amount < pre.deposits[holder] ==> post.earnings == pre.earnings
                && res->Ok_0@.messages.len() == 1
        },
{
    if res is Ok {
        let r = res->Ok_0;
        assert(r@ == withdraw_response(pre, holder, amount as nat));
        let t1 = transfer(holder, amount as nat, pre.stakable_denom);
        let left = (pre.deposits[holder] - amount) as nat;
        if left == 0 && pre.earnings.contains_key(holder) && pre.earnings[holder] > 0 {
            let t2 = transfer(holder, pre.earnings[holder], pre.incensitive_denom);
            assert(r@.messages == seq![t1] + seq![t2]);
            assert((seq![t1] + seq![t2])[0] == t1);
        } else {
            assert(r@.messages == seq![t1] + Seq::<SubMsgView>::empty());
            assert((seq![t1] + Seq::<SubMsgView>::empty())[0] == t1);
            assert((seq![t1] + Seq::<SubMsgView>::empty()).len() == 1);
        }
    }
}

/// A claim of positive earnings always goes through, whatever their size: it
/// sends all of them to the holder in the incentive denomination and leaves
/// nothing to claim. It is refused only when the record holds zero, and sends
/// nothing when there is no record.
pub proof fn lemma_claim_progress(
    pre: StakingView,
    post: StakingView,
    holder: Seq<char>,
    res: Result<Response, ContractError>,
)
    requires
        claim_outcome(pre, post, holder, res),
    ensures
        res is Err <==> (pre.earnings.contains_key(holder) && pre.earnings[holder] == 0),
        res is Err ==> post == pre,
        pre.earnings.contains_key(holder) && pre.earnings[holder] > 0 ==> {
            &&& res is Ok
            &&& res->Ok_0@.messages =~= seq![
                transfer(holder, pre.earnings[holder], pre.incensitive_denom),
            ]
            &&& !post.earnings.contains_key(holder)
            &&& amount_or_zero(post.earnings, holder) == 0
            &&& post.deposits == pre.deposits
            &&& post.total_stacked == pre.total_stacked
        },
        !pre.earnings.contains_key(holder) ==> res is Ok && res->Ok_0@.messages.len() == 0 && post
            == pre,
{
}

/// A reward with funds attached, the first in the incentive denomination, is
/// always shared, whoever sends it: every staker's earnings grow by its part,
/// everyone else's stay, and no deposit moves. It is refused exactly when no
/// funds come with it or the first are of another denomination.
pub proof fn lemma_reward_progress(
    pre: StakingView,
    post: StakingView,
    info: MessageInfo,
    res: Result<Response, ContractError>,
)
    requires
        deposit_rewards_outcome(pre, post, info, res),
    ensures
        res is Err <==> (info.funds.len() == 0 || DenomView::Native(info.funds[0].denom@)
            != pre.incensitive_denom),
        res is Err ==> post == pre,
        res is Ok ==> {
            &&& post.deposits == pre.deposits
            &&& post.total_stacked == pre.total_stacked
            &&& res->Ok_0@.messages.len() == 0
            &&& forall|k: Seq<char>| #[trigger]
                pre.deposits.contains_key(k) ==> post.earnings.contains_key(k) && post.earnings[k]
                    == amount_or_zero(pre.earnings, k) + reward_share(
                    info.funds[0].amount as nat,
                    pre.deposits[k],
                    pre.total_stacked,
                )
            &&& forall|k: Seq<char>|
                !pre.deposits.contains_key(k) ==> #[trigger] post.earnings.contains_key(k)
                    == pre.earnings.contains_key(k) && amount_or_zero(post.earnings, k)
                    == amount_or_zero(pre.earnings, k)
        },
{
}

} // verus!
