use staking::contract::{execute, instantiate, query};
use staking::msg::{
    BalanceResponse, Coin, Cw20ReceiveMsg, ExecuteMsg, InstantiateMsg, MessageInfo, QueryMsg,
    QueryResponse, ReceiveMsg, TotalStackedResponse,
};
use staking::state::Staking;
use staking::utils::denom::Denom;

fn mock_info(sender: &str, funds: Vec<Coin>) -> MessageInfo {
    MessageInfo { sender: sender.to_string(), funds }
}

fn coins(amount: u128, denom: &str) -> Vec<Coin> {
    vec![Coin { denom: denom.to_string(), amount }]
}

fn instantiate_contract() -> Staking {
    let msg = InstantiateMsg {
        incensitive_denom: Denom::Native("uusd".to_string()),
        stakable_denom: Denom::Cw20("WTOKEN".to_string()),
    };
    let (staking, _response) = instantiate(msg);
    staking
}

fn balance_of(res: QueryResponse) -> BalanceResponse {
    match res {
        QueryResponse::Balance(b) => b,
        QueryResponse::Earned(b) => b,
        other => panic!("unexpected answer {:?}", other),
    }
}

fn total_of(res: QueryResponse) -> TotalStackedResponse {
    match res {
        QueryResponse::TotalDeposited(t) => t,
        other => panic!("unexpected answer {:?}", other),
    }
}

#[test]
fn integration() {
    let mut deps = instantiate_contract();
    let user_1 = "olly".to_string();
    let user_2 = "francis".to_string();

    // deposit 1000 wtoken for user_1
    let msg = Cw20ReceiveMsg { sender: user_1.clone(), amount: 2_000u128, msg: ReceiveMsg::Deposit {} };
    execute(&mut deps, mock_info("WTOKEN", vec![]), ExecuteMsg::Receive(msg)).unwrap();

    // deposit 1000 wtoken for user_2
    let msg = Cw20ReceiveMsg { sender: user_2.clone(), amount: 1_000u128, msg: ReceiveMsg::Deposit {} };
    execute(&mut deps, mock_info("WTOKEN", vec![]), ExecuteMsg::Receive(msg)).unwrap();

    // check deposit was succesful
    let res = balance_of(query(&deps, QueryMsg::Balance { address: user_1.clone() }));
    assert_eq!(res.amount, 2000u128);

    let res = balance_of(query(&deps, QueryMsg::Balance { address: user_2.clone() }));
    assert_eq!(res.amount, 1000u128);

    let res = total_of(query(&deps, QueryMsg::TotalDeposited {}));
    assert_eq!(res.amount, 3000u128);

    // withdraw some token
    let res = execute(
        &mut deps,
        mock_info(&user_1, vec![]),
        ExecuteMsg::Withdraw { amount: 1_000u128 },
    )
    .unwrap();
    assert_eq!(res.messages.len(), 1);

    // check the remaining balance
    let res = balance_of(query(&deps, QueryMsg::Balance { address: user_1.clone() }));
    assert_eq!(res.amount, 1000u128);

    // Send reward to the contract
    execute(&mut deps, mock_info("Someone", coins(10_000u128, "uusd")), ExecuteMsg::Reward {}).unwrap();

    // check the earnings
    let res = balance_of(query(&deps, QueryMsg::Earned { address: user_1.clone() }));
    assert_eq!(res.amount, 5000u128);
    let res = balance_of(query(&deps, QueryMsg::Earned { address: user_2.clone() }));
    assert_eq!(res.amount, 5000u128);

    // withdraw the earnings
    let res = execute(&mut deps, mock_info(&user_1, vec![]), ExecuteMsg::Claim {}).unwrap();
    assert_eq!(res.messages.len(), 1);

    // we should have 0 balance now
    let res = balance_of(query(&deps, QueryMsg::Earned { address: user_1.clone() }));
    assert_eq!(res.amount, 0u128);
}
