use staking::contract::{execute, execute_allowed_check, instantiate, query};
use staking::error::{ContractError, StdError};
use staking::executions::reward::{claim, deposit_rewards, sharing_fits_check};
use staking::executions::stacking::{receive_cw20, withdraw_cw20};
use staking::msg::{
    Coin, Cw20ReceiveMsg, ExecuteMsg, InstantiateMsg, MessageInfo, QueryMsg, QueryResponse,
    ReceiveMsg, Response,
};
use staking::queries::{balance, earned, total_stacked};
use staking::state::{Balance, Staking, State};
use staking::utils::decimal::compute_reward_share;
use staking::utils::denom::{denom_stringify, send_balance, Denom, SubMsg};

fn info(sender: &str, funds: Vec<Coin>) -> MessageInfo {
    MessageInfo { sender: sender.to_string(), funds }
}

fn uusd(amount: u128) -> Vec<Coin> {
    vec![Coin { denom: "uusd".to_string(), amount }]
}

fn ledger() -> Staking {
    instantiate(InstantiateMsg {
        incensitive_denom: Denom::Native("uusd".to_string()),
        stakable_denom: Denom::Cw20("WTOKEN".to_string()),
    })
    .0
}

fn deposit(staking: &mut Staking, who: &str, amount: u128) -> Result<Response, ContractError> {
    receive_cw20(
        staking,
        info("WTOKEN", vec![]),
        Cw20ReceiveMsg { sender: who.to_string(), amount, msg: ReceiveMsg::Deposit {} },
    )
}

fn attributes(res: &Response) -> Vec<(String, String)> {
    res.attributes.iter().map(|a| (a.key.clone(), a.value.clone())).collect()
}

fn is_zero_amount(e: &ContractError) -> bool {
    matches!(e, ContractError::Std(StdError::GenericErr { msg }) if msg == "Cannot send 0 amount")
}

#[test]
fn instantiate_names_both_assets() {
    let (staking, res) = instantiate(InstantiateMsg {
        incensitive_denom: Denom::Native("uusd".to_string()),
        stakable_denom: Denom::Cw20("WTOKEN".to_string()),
    });
    assert!(res.messages.is_empty());
    assert_eq!(
        attributes(&res),
        vec![
            ("method".to_string(), "instantiate".to_string()),
            ("incensitive asset".to_string(), "uusd".to_string()),
            ("stackable asset".to_string(), "WTOKEN".to_string()),
        ]
    );
    assert_eq!(total_stacked(&staking).amount, 0);
    assert_eq!(total_stacked(&staking).denom, Denom::Cw20("WTOKEN".to_string()));
    assert!(staking.deposited().is_empty());
    assert!(staking.earned().is_empty());
}

#[test]
fn deposit_adds_to_balance_and_total() {
    let mut staking = ledger();
    let res = deposit(&mut staking, "olly", 700).unwrap();
    assert!(res.messages.is_empty());
    assert_eq!(attributes(&res), vec![("method".to_string(), "deposit".to_string())]);
    deposit(&mut staking, "olly", 300).unwrap();
    assert_eq!(balance(&staking, "olly".to_string()).amount, 1000);
    assert_eq!(balance(&staking, "olly".to_string()).denom, Denom::Cw20("WTOKEN".to_string()));
    assert_eq!(balance(&staking, "nobody".to_string()).amount, 0);
    assert_eq!(total_stacked(&staking).amount, 1000);
}

#[test]
fn deposit_of_another_token_is_refused() {
    let mut staking = ledger();
    let res = receive_cw20(
        &mut staking,
        info("OTHER", vec![]),
        Cw20ReceiveMsg { sender: "olly".to_string(), amount: 5, msg: ReceiveMsg::Deposit {} },
    );
    match res {
        Err(ContractError::UnsupportedDeposit { denom }) => assert_eq!(denom, "OTHER"),
        other => panic!("unexpected {:?}", other),
    }
    assert_eq!(total_stacked(&staking).amount, 0);
    assert!(staking.deposited().is_empty());
}

#[test]
fn withdraw_without_deposit_is_refused() {
    let mut staking = ledger();
    let res = withdraw_cw20(&mut staking, info("olly", vec![]), 1);
    assert!(matches!(res, Err(ContractError::NoWithdrawableBalance {})));
}

#[test]
fn withdraw_above_deposit_is_refused() {
    let mut staking = ledger();
    deposit(&mut staking, "olly", 100).unwrap();
    let res = withdraw_cw20(&mut staking, info("olly", vec![]), 101);
    assert!(matches!(
        res,
        Err(ContractError::InvalidWithdrawal { available: 100, requested: 101 })
    ));
    assert_eq!(balance(&staking, "olly".to_string()).amount, 100);
    assert_eq!(total_stacked(&staking).amount, 100);
}

#[test]
fn withdraw_of_nothing_is_refused() {
    let mut staking = ledger();
    deposit(&mut staking, "olly", 100).unwrap();
    let res = withdraw_cw20(&mut staking, info("olly", vec![]), 0);
    assert!(is_zero_amount(&res.unwrap_err()));
    assert_eq!(balance(&staking, "olly".to_string()).amount, 100);
}

#[test]
fn partial_withdraw_sends_the_tokens_back() {
    let mut staking = ledger();
    deposit(&mut staking, "olly", 2000).unwrap();
    let res = withdraw_cw20(&mut staking, info("olly", vec![]), 1000).unwrap();
    assert_eq!(res.messages.len(), 1);
    match &res.messages[0] {
        SubMsg::Cw20Transfer { contract_addr, recipient, amount } => {
            assert_eq!(contract_addr, "WTOKEN");
            assert_eq!(recipient, "olly");
            assert_eq!(*amount, 1000);
        }
        other => panic!("unexpected {:?}", other),
    }
    assert_eq!(
        attributes(&res),
        vec![
            ("method".to_string(), "deposit".to_string()),
            ("new balance".to_string(), "1000".to_string()),
        ]
    );
    assert_eq!(balance(&staking, "olly".to_string()).amount, 1000);
    assert_eq!(total_stacked(&staking).amount, 1000);
}

#[test]
fn full_withdraw_closes_the_deposit_and_pays_the_earnings() {
    let mut staking = ledger();
    deposit(&mut staking, "olly", 300).unwrap();
    deposit(&mut staking, "francis", 100).unwrap();
    deposit_rewards(&mut staking, info("Someone", uusd(4000))).unwrap();
    assert_eq!(earned(&staking, "olly".to_string()).amount, 3000);
    let res = withdraw_cw20(&mut staking, info("olly", vec![]), 300).unwrap();
    assert_eq!(res.messages.len(), 2);
    match &res.messages[1] {
        SubMsg::BankSend { to_address, amount, denom } => {
            assert_eq!(to_address, "olly");
            assert_eq!(*amount, 3000);
            assert_eq!(denom, "uusd");
        }
        other => panic!("unexpected {:?}", other),
    }
    assert_eq!(res.attributes[1].value, "0");
    assert_eq!(balance(&staking, "olly".to_string()).amount, 0);
    assert_eq!(earned(&staking, "olly".to_string()).amount, 0);
    assert_eq!(staking.deposited().len(), 1);
    assert_eq!(staking.earned().len(), 1);
    assert_eq!(total_stacked(&staking).amount, 100);
}

#[test]
fn full_withdraw_after_claim_sends_only_the_tokens() {
    let mut staking = ledger();
    deposit(&mut staking, "olly", 50).unwrap();
    deposit_rewards(&mut staking, info("Someone", uusd(10))).unwrap();
    claim(&mut staking, info("olly", vec![])).unwrap();
    let res = withdraw_cw20(&mut staking, info("olly", vec![]), 50).unwrap();
    assert_eq!(res.messages.len(), 1);
    assert!(staking.deposited().is_empty());
}

#[test]
fn reward_without_funds_is_refused() {
    let mut staking = ledger();
    deposit(&mut staking, "olly", 50).unwrap();
    let res = deposit_rewards(&mut staking, info("Someone", vec![]));
    assert!(matches!(res, Err(ContractError::NoReward {})));
}

#[test]
fn reward_in_another_denom_is_refused() {
    let mut staking = ledger();
    deposit(&mut staking, "olly", 50).unwrap();
    let res = deposit_rewards(
        &mut staking,
        info("Someone", vec![Coin { denom: "uluna".to_string(), amount: 10 }]),
    );
    match res {
        Err(ContractError::InvalidRewardDenomination { expected, received }) => {
            assert_eq!(expected, Denom::Native("uusd".to_string()));
            assert_eq!(received, Denom::Native("uluna".to_string()));
        }
        other => panic!("unexpected {:?}", other),
    }
    assert!(staking.earned().is_empty());
}

#[test]
fn reward_is_shared_in_proportion_to_stakes() {
    let mut staking = ledger();
    deposit(&mut staking, "a", 1).unwrap();
    deposit(&mut staking, "b", 1).unwrap();
    deposit(&mut staking, "c", 1).unwrap();
    let res = deposit_rewards(&mut staking, info("Someone", uusd(100))).unwrap();
    assert_eq!(attributes(&res), vec![("method".to_string(), "deposit_rewards".to_string())]);
    let parts: Vec<u128> =
        ["a", "b", "c"].iter().map(|w| earned(&staking, w.to_string()).amount).collect();
    assert_eq!(parts, vec![33, 33, 33]);
    assert!(parts.iter().sum::<u128>() <= 100);
    // a second round adds to what was earned
    deposit_rewards(&mut staking, info("Someone", uusd(100))).unwrap();
    assert_eq!(earned(&staking, "a".to_string()).amount, 66);
}

#[test]
fn reward_with_no_stakers_changes_nothing() {
    let mut staking = ledger();
    let res = deposit_rewards(&mut staking, info("Someone", uusd(100)));
    assert!(res.is_ok());
    assert!(staking.earned().is_empty());
}

#[test]
fn claim_without_earnings_sends_nothing() {
    let mut staking = ledger();
    let res = claim(&mut staking, info("olly", vec![])).unwrap();
    assert!(res.messages.is_empty());
    assert!(res.attributes.is_empty());
}

#[test]
fn claim_of_a_zero_earning_is_refused() {
    let mut staking = ledger();
    deposit(&mut staking, "a", 1).unwrap();
    deposit(&mut staking, "b", 2).unwrap();
    deposit_rewards(&mut staking, info("Someone", uusd(1))).unwrap();
    assert_eq!(earned(&staking, "a".to_string()).amount, 0);
    let res = claim(&mut staking, info("a", vec![]));
    assert!(is_zero_amount(&res.unwrap_err()));
    assert_eq!(staking.earned().len(), 2);
}

#[test]
fn claim_pays_out_and_empties_the_record() {
    let mut staking = ledger();
    deposit(&mut staking, "olly", 10).unwrap();
    deposit_rewards(&mut staking, info("Someone", uusd(70))).unwrap();
    let res = claim(&mut staking, info("olly", vec![])).unwrap();
    assert_eq!(res.messages.len(), 1);
    match &res.messages[0] {
        SubMsg::BankSend { to_address, amount, denom } => {
            assert_eq!(to_address, "olly");
            assert_eq!(*amount, 70);
            assert_eq!(denom, "uusd");
        }
        other => panic!("unexpected {:?}", other),
    }
    assert_eq!(earned(&staking, "olly".to_string()).amount, 0);
    let again = claim(&mut staking, info("olly", vec![])).unwrap();
    assert!(again.messages.is_empty());
}

#[test]
fn reward_share_follows_decimal_rounding() {
    assert_eq!(compute_reward_share(10_000, 1_000, 2_000), 5_000);
    assert_eq!(compute_reward_share(10, 1, 3), 3);
    assert_eq!(compute_reward_share(1, 1, 3), 0);
    assert_eq!(compute_reward_share(999, 7, 7), 999);
    assert_eq!(compute_reward_share(0, 5, 9), 0);
    assert_eq!(compute_reward_share(1_000_000, 0, 9), 0);
}

#[test]
fn larger_stake_earns_no_less() {
    let small = compute_reward_share(12_345, 10, 77);
    let large = compute_reward_share(12_345, 11, 77);
    assert!(small <= large);
    assert_eq!(small, 1603);
    assert_eq!(large, 1763);
}

#[test]
fn denominations_are_stringified_by_name() {
    assert_eq!(denom_stringify(&Denom::Native("uusd".to_string())), "uusd");
    assert_eq!(denom_stringify(&Denom::Cw20("WTOKEN".to_string())), "WTOKEN");
}

#[test]
fn send_balance_builds_the_transfer() {
    let to = "olly".to_string();
    match send_balance(&to, 5, Denom::Native("uusd".to_string())).unwrap() {
        SubMsg::BankSend { to_address, amount, denom } => {
            assert_eq!((to_address.as_str(), amount, denom.as_str()), ("olly", 5, "uusd"));
        }
        other => panic!("unexpected {:?}", other),
    }
    match send_balance(&to, 6, Denom::Cw20("WTOKEN".to_string())).unwrap() {
        SubMsg::Cw20Transfer { contract_addr, recipient, amount } => {
            assert_eq!((contract_addr.as_str(), recipient.as_str(), amount), ("WTOKEN", "olly", 6));
        }
        other => panic!("unexpected {:?}", other),
    }
    assert!(is_zero_amount(&send_balance(&to, 0, Denom::Native("uusd".to_string())).unwrap_err()));
    assert!(is_zero_amount(&send_balance(&to, 0, Denom::Cw20("WTOKEN".to_string())).unwrap_err()));
}

#[test]
fn withdraw_right_after_deposit_restores_the_ledger() {
    let mut staking = ledger();
    deposit(&mut staking, "olly", 40).unwrap();
    deposit(&mut staking, "olly", 25).unwrap();
    withdraw_cw20(&mut staking, info("olly", vec![]), 25).unwrap();
    assert_eq!(balance(&staking, "olly".to_string()).amount, 40);
    assert_eq!(total_stacked(&staking).amount, 40);
    deposit(&mut staking, "francis", 9).unwrap();
    withdraw_cw20(&mut staking, info("francis", vec![]), 9).unwrap();
    assert_eq!(staking.deposited().len(), 1);
    assert_eq!(total_stacked(&staking).amount, 40);
}

#[test]
fn refused_requests_leave_the_ledger_alone() {
    let mut staking = ledger();
    deposit(&mut staking, "olly", 40).unwrap();
    deposit_rewards(&mut staking, info("Someone", uusd(8))).unwrap();
    let before = (
        balance(&staking, "olly".to_string()).amount,
        earned(&staking, "olly".to_string()).amount,
        total_stacked(&staking).amount,
    );
    assert!(execute(&mut staking, info("olly", vec![]), ExecuteMsg::Withdraw { amount: 41 }).is_err());
    assert!(execute(&mut staking, info("x", vec![]), ExecuteMsg::Reward {}).is_err());
    assert!(execute(&mut staking, info("nobody", vec![]), ExecuteMsg::Withdraw { amount: 1 }).is_err());
    let after = (
        balance(&staking, "olly".to_string()).amount,
        earned(&staking, "olly".to_string()).amount,
        total_stacked(&staking).amount,
    );
    assert_eq!(before, after);
}

#[test]
fn query_answers_each_question() {
    let mut staking = ledger();
    deposit(&mut staking, "olly", 12).unwrap();
    match query(&staking, QueryMsg::Balance { address: "olly".to_string() }) {
        QueryResponse::Balance(b) => assert_eq!(b.amount, 12),
        other => panic!("unexpected {:?}", other),
    }
    match query(&staking, QueryMsg::TotalDeposited {}) {
        QueryResponse::TotalDeposited(t) => assert_eq!(t.amount, 12),
        other => panic!("unexpected {:?}", other),
    }
    match query(&staking, QueryMsg::Earned { address: "olly".to_string() }) {
        QueryResponse::Earned(b) => {
            assert_eq!(b.amount, 0);
            assert_eq!(b.denom, Denom::Native("uusd".to_string()));
        }
        other => panic!("unexpected {:?}", other),
    }
}

#[test]
fn records_are_checked_when_rebuilt() {
    let state = || State {
        incensitive_denom: Denom::Native("uusd".to_string()),
        stakable_denom: Denom::Cw20("WTOKEN".to_string()),
        total_stacked: 30,
    };
    let entry = |owner: &str, amount: u128| Balance { amount, owner: owner.to_string() };
    assert!(Staking::from_parts(state(), vec![entry("a", 10), entry("b", 20)], vec![]).is_some());
    assert!(Staking::from_parts(state(), vec![entry("a", 10), entry("a", 20)], vec![]).is_none());
    assert!(Staking::from_parts(state(), vec![entry("a", 10), entry("b", 21)], vec![]).is_none());
    assert!(Staking::from_parts(state(), vec![entry("a", 30)], vec![entry("a", 1), entry("a", 2)])
        .is_none());
    assert!(Staking::from_parts(state(), vec![entry("a", u128::MAX), entry("b", 31)], vec![]).is_none());
}

#[test]
fn overflowing_requests_are_detected_beforehand() {
    let mut staking = ledger();
    deposit(&mut staking, "olly", u128::MAX - 5).unwrap();
    let big = ExecuteMsg::Receive(Cw20ReceiveMsg {
        sender: "francis".to_string(),
        amount: 6,
        msg: ReceiveMsg::Deposit {},
    });
    assert!(!execute_allowed_check(&staking, &info("WTOKEN", vec![]), &big));
    let fine = ExecuteMsg::Receive(Cw20ReceiveMsg {
        sender: "francis".to_string(),
        amount: 5,
        msg: ReceiveMsg::Deposit {},
    });
    assert!(execute_allowed_check(&staking, &info("WTOKEN", vec![]), &fine));
    // another token is refused, not added
    assert!(execute_allowed_check(&staking, &info("OTHER", vec![]), &big));
    deposit_rewards(&mut staking, info("Someone", uusd(u128::MAX - 1))).unwrap();
    assert!(sharing_fits_check(&staking, 1));
    assert!(!sharing_fits_check(&staking, 10));
    assert!(!execute_allowed_check(&staking, &info("x", uusd(10)), &ExecuteMsg::Reward {}));
    assert!(execute_allowed_check(&staking, &info("x", vec![]), &ExecuteMsg::Reward {}));
}

#[test]
fn zero_stake_with_zero_total_cannot_be_shared() {
    let mut staking = ledger();
    deposit(&mut staking, "olly", 0).unwrap();
    assert!(!sharing_fits_check(&staking, 10));
    let empty = ledger();
    assert!(sharing_fits_check(&empty, 10));
}

#[test]
fn balance_includes_accrued_earnings() {
    let mut staking = ledger();
    deposit(&mut staking, "olly", 10).unwrap();
    let before = balance(&staking, "olly".to_string());
    assert_eq!(before.earned, 0);
    assert_eq!(before.earned_denom, Denom::Native("uusd".to_string()));
    deposit_rewards(&mut staking, info("Someone", uusd(70))).unwrap();
    let after = balance(&staking, "olly".to_string());
    assert_eq!(after.amount, 10);
    assert_eq!(after.denom, Denom::Cw20("WTOKEN".to_string()));
    assert_eq!(after.earned, 70);
    assert_eq!(after.earned_denom, Denom::Native("uusd".to_string()));
    let reward = earned(&staking, "olly".to_string());
    assert_eq!((reward.amount, reward.earned), (70, 70));
    let nobody = balance(&staking, "nobody".to_string());
    assert_eq!((nobody.amount, nobody.earned), (0, 0));
    match query(&staking, QueryMsg::Balance { address: "olly".to_string() }) {
        QueryResponse::Balance(b) => assert_eq!((b.amount, b.earned), (10, 70)),
        other => panic!("unexpected {:?}", other),
    }
}

#[test]
fn two_deposits_are_one_deposit_of_the_sum() {
    let mut twice = ledger();
    deposit(&mut twice, "olly", 3).unwrap();
    deposit(&mut twice, "olly", 4).unwrap();
    let mut once = ledger();
    deposit(&mut once, "olly", 7).unwrap();
    assert_eq!(balance(&twice, "olly".to_string()).amount, balance(&once, "olly".to_string()).amount);
    assert_eq!(total_stacked(&twice).amount, total_stacked(&once).amount);
    assert_eq!(twice.deposited().len(), once.deposited().len());
}

#[test]
fn payouts_never_exceed_credits() {
    let mut staking = ledger();
    let mut staked_in = 0u128;
    let mut staked_out = 0u128;
    let mut paid = 0u128;
    let mut rewarded = 0u128;
    for (who, amount) in [("a", 30u128), ("b", 70u128)] {
        deposit(&mut staking, who, amount).unwrap();
        staked_in += amount;
    }
    deposit_rewards(&mut staking, info("Someone", uusd(999))).unwrap();
    rewarded += earned(&staking, "a".to_string()).amount + earned(&staking, "b".to_string()).amount;
    for m in claim(&mut staking, info("a", vec![])).unwrap().messages {
        if let SubMsg::BankSend { amount, .. } = m {
            paid += amount;
        }
    }
    for m in withdraw_cw20(&mut staking, info("b", vec![]), 70).unwrap().messages {
        match m {
            SubMsg::BankSend { amount, .. } => paid += amount,
            SubMsg::Cw20Transfer { amount, .. } => staked_out += amount,
        }
    }
    assert_eq!(staked_out, 70);
    assert!(staked_out <= staked_in);
    assert_eq!(paid, rewarded);
    assert!(paid <= 999);
}
