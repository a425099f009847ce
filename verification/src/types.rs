//! Shared message-plumbing types: coins, the transaction environment,
//! observability records, and handler responses.

use vstd::prelude::*;

verus! {

/// An amount of a native token denomination.
#[derive(Debug, Clone, PartialEq, Eq)]
pub struct Coin {
    pub denom: String,
    pub amount: u128,
}

/// Builds one coin.
pub fn coin(amount: u128, denom: &str) -> (c: Coin)
    ensures
        c.denom@ == denom@,
        c.amount == amount,
{
    Coin { denom: String::from_str(denom), amount }
}

/// Builds the one-coin list used for send instructions.
pub fn coins(amount: u128, denom: &str) -> (v: Vec<Coin>)
    ensures
        v@.len() == 1,
        v@[0].denom@ == denom@,
        v@[0].amount == amount,
{
    let mut v: Vec<Coin> = Vec::new();
    v.push(coin(amount, denom));
    v
}

/// Who sent the message and what funds came with it.
#[derive(Debug, Clone)]
pub struct MessageInfo {
    pub sender: String,
    pub sent_funds: Vec<Coin>,
}

/// The block the transaction executes in.
#[derive(Debug, Clone)]
pub struct BlockInfo {
    pub height: u64,
}

/// The executing contract's own identity.
#[derive(Debug, Clone)]
pub struct ContractInfo {
    pub address: String,
}

/// What a handler sees of its transaction.
#[derive(Debug, Clone)]
pub struct Env {
    pub message: MessageInfo,
    pub block: BlockInfo,
    pub contract: ContractInfo,
}

/// One key/value observability record.
#[derive(Debug, Clone, PartialEq, Eq)]
pub struct LogAttribute {
    pub key: String,
    pub value: String,
}

/// Whether a record holds exactly this key and value.
pub open spec fn log_is(l: LogAttribute, key: Seq<char>, value: Seq<char>) -> bool {
    l.key@ == key && l.value@ == value
}

/// Builds one observability record.
pub fn log(key: &str, value: &str) -> (l: LogAttribute)
    ensures
        log_is(l, key@, value@),
{
    LogAttribute { key: String::from_str(key), value: String::from_str(value) }
}

/// An instruction for the host to move funds.
#[derive(Debug, Clone, PartialEq, Eq)]
pub enum BankMsg {
    Send { from_address: String, to_address: String, amount: Vec<Coin> },
}

/// What a successful handler returns: zero or more fund-moving
/// instructions for the host, and an ordered log.
#[derive(Debug)]
pub struct HandleResponse {
    pub messages: Vec<BankMsg>,
    pub log: Vec<LogAttribute>,
}

/// What a successful initialization returns.
#[derive(Debug)]
pub struct InitResponse {
    pub messages: Vec<BankMsg>,
    pub log: Vec<LogAttribute>,
}

} // verus!
