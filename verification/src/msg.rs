//! The requests the ledger takes and the answers it gives.
use crate::utils::denom::{Denom, SubMsg, SubMsgView};
use vstd::prelude::*;

verus! {

#[derive(Debug)]
pub struct InstantiateMsg {
    /// The incensitive denomination for this contract
    pub incensitive_denom: Denom,
    /// cw20 token that can be stacked on this contract
    pub stakable_denom: Denom,
}

/// A cw20 token contract's notice that it moved `amount` of its token from
/// `sender` to the ledger, with the instruction that came with the tokens.
#[derive(Debug)]
pub struct Cw20ReceiveMsg {
    pub sender: String,
    pub amount: u128,
    pub msg: ReceiveMsg,
}

#[derive(Debug)]
pub enum ExecuteMsg {
    /// Receive CW20 and process the inner message.
    Receive(Cw20ReceiveMsg),
    /// Withdraw the deposited assets
    Withdraw { amount: u128 },
    /// Share the attached funds between the stakers
    Reward {},
    /// Send the caller the rewards it has earned
    Claim {},
}

/// The Receive message is used to handle CW20 being sent to this contract
#[derive(Clone, Copy, Debug, PartialEq, Eq, Structural)]
pub enum ReceiveMsg {
    /// Execute a deposit of the asset being stacked.
    Deposit {},
}

#[derive(Debug)]
pub enum QueryMsg {
    /// Get the balance for the given address
    Balance { address: String },
    /// Get the total amount staked
    TotalDeposited {},
    /// Get the rewards the given address has earned
    Earned { address: String },
}

/// An amount of an asset held for an address, with the rewards it has earned.
#[derive(Debug)]
pub struct BalanceResponse {
    pub amount: u128,
    pub denom: Denom,
    pub earned: u128,
    pub earned_denom: Denom,
}

/// The amount staked in the ledger, all holders together.
#[derive(Debug)]
pub struct TotalStackedResponse {
    pub amount: u128,
    pub denom: Denom,
}

/// The answer to a `QueryMsg`, one variant for each of its variants.
#[derive(Debug)]
pub enum QueryResponse {
    Balance(BalanceResponse),
    TotalDeposited(TotalStackedResponse),
    Earned(BalanceResponse),
}

/// Coins of one native denomination.
#[derive(Debug)]
pub struct Coin {
    pub denom: String,
    pub amount: u128,
}

/// Who sent a request, and the native coins that came with it.
#[derive(Debug)]
pub struct MessageInfo {
    pub sender: String,
    pub funds: Vec<Coin>,
}

/// A key and a value that a request leaves in the chain's event log.
#[derive(Debug)]
pub struct Attribute {
    pub key: String,
    pub value: String,
}

/// What a request that succeeded leaves behind: the messages the chain then
/// carries out, in order, and the attributes of its event.
#[derive(Debug)]
pub struct Response {
    pub messages: Vec<SubMsg>,
    pub attributes: Vec<Attribute>,
}

/// A `Response`, as the messages it asks for and the texts of its attributes.
pub struct ResponseView {
    pub messages: Seq<SubMsgView>,
    pub attributes: Seq<(Seq<char>, Seq<char>)>,
}

impl View for Response {
    type V = ResponseView;

    open spec fn view(&self) -> ResponseView {
        ResponseView {
            messages: self.messages@.map_values(|m: SubMsg| m@),
            attributes: self.attributes@.map_values(|a: Attribute| (a.key@, a.value@)),
        }
    }
}

impl Response {
    pub fn new() -> (r: Response)
        ensures
            r@.messages == Seq::<SubMsgView>::empty(),
            r@.attributes == Seq::<(Seq<char>, Seq<char>)>::empty(),
    {
        let r = Response { messages: Vec::new(), attributes: Vec::new() };
        proof {
            assert(r@.messages =~= Seq::<SubMsgView>::empty());
            assert(r@.attributes =~= Seq::<(Seq<char>, Seq<char>)>::empty());
        }
        r
    }

    /// The response with one more attribute, `key` = `value`, at the end.
    pub fn add_attribute(self, key: &str, value: String) -> (r: Response)
        ensures
            r@.messages == self@.messages,
            r@.attributes == self@.attributes.push((key@, value@)),
    {
        let mut r = self;
        let ghost before = r;
        r.attributes.push(Attribute { key: key.to_owned(), value });
        proof {
            assert(r@.messages =~= before@.messages);
            assert(r@.attributes =~= before@.attributes.push((key@, value@)));
        }
        r
    }

    /// The response with one more message, `msg`, at the end.
    pub fn add_submessage(self, msg: SubMsg) -> (r: Response)
        ensures
            r@.messages == self@.messages.push(msg@),
            r@.attributes == self@.attributes,
    {
        let mut r = self;
        let ghost before = r;
        r.messages.push(msg);
        proof {
            assert(r@.messages =~= before@.messages.push(msg@));
            assert(r@.attributes =~= before@.attributes);
        }
        r
    }
}

/// The attributes of a response that only names the method that ran.
pub open spec fn method_attributes(method: Seq<char>) -> Seq<(Seq<char>, Seq<char>)> {
    seq![("method"@, method)]
}

} // verus!
