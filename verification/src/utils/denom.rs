//! Denominations, and the messages that send an amount of one.
use crate::error::{is_zero_amount_error, zero_amount_text, ContractError, StdError};
use vstd::prelude::*;

verus! {

/// An asset: a native coin, named by its denomination, or a cw20 token,
/// named by the address of its contract.
#[derive(Debug)]
pub enum Denom {
    Native(String),
    Cw20(String),
}

/// What a `Denom` is, in the text of its name.
pub enum DenomView {
    Native(Seq<char>),
    Cw20(Seq<char>),
}

impl View for Denom {
    type V = DenomView;

    open spec fn view(&self) -> DenomView {
        match self {
            Denom::Native(coin) => DenomView::Native(coin@),
            Denom::Cw20(token) => DenomView::Cw20(token@),
        }
    }
}

impl Clone for Denom {
    fn clone(&self) -> (copy: Self)
        ensures
            copy@ == self@,
    {
        match self {
            Denom::Native(coin) => Denom::Native(coin.clone()),
            Denom::Cw20(token) => Denom::Cw20(token.clone()),
        }
    }
}

impl PartialEq for Denom {
    fn eq(&self, other: &Self) -> (same: bool) {
        match (self, other) {
            (Denom::Native(a), Denom::Native(b)) => *a == *b,
            (Denom::Cw20(a), Denom::Cw20(b)) => *a == *b,
            _ => false,
        }
    }
}

impl vstd::std_specs::cmp::PartialEqSpecImpl for Denom {
    open spec fn obeys_eq_spec() -> bool {
        true
    }

    open spec fn eq_spec(&self, other: &Self) -> bool {
        self@ == other@
    }
}

/// The name of an asset: the coin's denomination, or the token's address.
pub open spec fn denom_text(asset: DenomView) -> Seq<char> {
    match asset {
        DenomView::Native(coin) => coin,
        DenomView::Cw20(token) => token,
    }
}

/// Stringify a denomination
pub fn denom_stringify(asset: &Denom) -> (text: String)
    ensures
        text@ == denom_text(asset@),
{
    match asset {
        Denom::Cw20(token) => token.clone(),
        Denom::Native(coin) => coin.clone(),
    }
}

/// A message the ledger has the chain carry out after a request: a transfer
/// of native coins through the bank, or a `Transfer` call on a cw20 contract.
#[derive(Debug)]
pub enum SubMsg {
    BankSend { to_address: String, amount: u128, denom: String },
    Cw20Transfer { contract_addr: String, recipient: String, amount: u128 },
}

/// What a `SubMsg` asks for.
pub enum SubMsgView {
    BankSend { to_address: Seq<char>, amount: nat, denom: Seq<char> },
    Cw20Transfer { contract_addr: Seq<char>, recipient: Seq<char>, amount: nat },
}

impl View for SubMsg {
    type V = SubMsgView;

    open spec fn view(&self) -> SubMsgView {
        match self {
            SubMsg::BankSend { to_address, amount, denom } => SubMsgView::BankSend {
                to_address: to_address@,
                amount: *amount as nat,
                denom: denom@,
            },
            SubMsg::Cw20Transfer { contract_addr, recipient, amount } => SubMsgView::Cw20Transfer {
                contract_addr: contract_addr@,
                recipient: recipient@,
                amount: *amount as nat,
            },
        }
    }
}

/// The message that sends `amount` of `asset` to `to`.
pub open spec fn transfer(to: Seq<char>, amount: nat, asset: DenomView) -> SubMsgView {
    match asset {
        DenomView::Native(coin) => SubMsgView::BankSend { to_address: to, amount, denom: coin },
        DenomView::Cw20(token) => SubMsgView::Cw20Transfer {
            contract_addr: token,
            recipient: to,
            amount,
        },
    }
}

/// The error for a transfer of nothing.
pub fn zero_amount_error() -> (e: ContractError)
    ensures
        is_zero_amount_error(e),
{
    let msg = "Cannot send 0 amount".to_owned();
    proof {
        reveal_strlit("Cannot send 0 amount");
        assert(msg@ =~= zero_amount_text());
    }
    ContractError::Std(StdError::GenericErr { msg })
}

/// send the given balance to the given recipient
pub fn send_balance(to: &String, amount: u128, asset: Denom) -> (res: Result<SubMsg, ContractError>)
    ensures
        amount == 0 <==> res is Err,
        res matches Err(e) ==> is_zero_amount_error(e),
        res matches Ok(m) ==> m@ == transfer(to@, amount as nat, asset@),
{
    match asset {
        Denom::Native(denom) => {
            if amount == 0 {
                return Err(zero_amount_error());
            }
            Ok(SubMsg::BankSend { to_address: to.clone(), amount, denom })
        },
        Denom::Cw20(token) => {
            if amount == 0 {
                return Err(zero_amount_error());
            }
            Ok(SubMsg::Cw20Transfer { contract_addr: token, recipient: to.clone(), amount })
        },
    }
}

} // verus!
