//! The staking-weighted governance engine: stake accounts, polls, vote
//! casting and the quorum/threshold tally.
//!
//! Governance state is passed by value through each handler. The
//! invariant ties the aggregate staked-token counter to the sum of all
//! stake balances, keeps poll ids sequential, and keeps every poll's
//! voter list duplicate-free.

use vstd::prelude::*;

verus! {

use crate::codec::dec_of;
use crate::codec::u128_to_dec_string;
use crate::codec::u64_to_dec_string;
use crate::error::Error;
use crate::types::BankMsg;
use crate::types::Coin;
use crate::types::Env;
use crate::types::HandleResponse;
use crate::types::InitResponse;
use crate::types::LogAttribute;
use crate::types::coin;
use crate::types::log;
use crate::types::log_is;
use vstd::utf8::encode_utf8;
use vstd::string::StringSliceAdditionalSpecFns;

/// The least amount a staking deposit must bring.
pub const MIN_STAKE_AMOUNT: u128 = 1;

/// The shortest acceptable poll description, in bytes.
pub const MIN_DESC_LENGTH: usize = 3;

/// The longest acceptable poll description, in bytes.
pub const MAX_DESC_LENGTH: usize = 64;

/// The governance configuration record, passed by value.
#[derive(Debug, Clone, PartialEq)]
pub struct State {
    pub denom: String,
    pub owner: String,
    pub poll_count: u64,
    pub staked_tokens: u128,
}

/// One account's stake: its balance, the weight it has locked per
/// poll, and the polls it has participated in.
#[derive(Debug, Clone, PartialEq)]
pub struct TokenManager {
    pub token_balance: u128,
    pub locked_tokens: Vec<(u64, u128)>,
    pub participated_polls: Vec<u64>,
}

/// One cast vote: its label and its weight. Tallying treats the
/// literal label `yes` as affirmative and every other label as
/// negative.
#[derive(Debug, Clone, PartialEq)]
pub struct Voter {
    pub vote: String,
    pub weight: u128,
}

/// Where a poll stands. `Tally` is a reserved intermediate marker; the
/// implemented flow moves straight from `InProgress` to a terminal
/// state.
#[derive(Debug, Clone, Copy, PartialEq, Eq, Structural)]
pub enum PollStatus {
    InProgress,
    Tally,
    Passed,
    Rejected,
}

/// One poll record.
#[derive(Debug, Clone, PartialEq)]
pub struct Poll {
    pub creator: String,
    pub status: PollStatus,
    pub quorum_percentage: u8,
    pub yes_votes: u128,
    pub no_votes: u128,
    pub voters: Vec<String>,
    pub voter_info: Vec<Voter>,
    pub end_height: Option<u64>,
    pub start_height: Option<u64>,
    pub description: String,
}

/// The whole governance state: configuration, polls by id (poll `n`
/// lives at index `n - 1`), and the stake accounts.
#[derive(Debug)]
pub struct Governance {
    pub state: State,
    pub polls: Vec<Poll>,
    pub bank: Vec<(String, TokenManager)>,
}

/// The host-side bank oracle. `end_poll` asks it for the contract's
/// aggregate balance in the staking denomination; nothing is assumed
/// of its answers.
pub trait Oracle {
    fn balance(&self, address: &str, denom: &str) -> u128;
}

/// What governance initialization takes.
#[derive(Debug, Clone)]
pub struct InitMsg {
    pub denom: String,
}

/// The governance engine's inbound transaction messages.
#[derive(Debug, Clone)]
pub enum HandleMsg {
    StakeVotingTokens {},
    WithdrawVotingTokens { amount: Option<u128> },
    CastVote { poll_id: u64, encrypted_vote: String, weight: u128 },
    EndPoll { poll_id: u64 },
    CreatePoll {
        quorum_percentage: Option<u8>,
        description: String,
        start_height: Option<u64>,
        end_height: Option<u64>,
    },
}

/// The governance engine's read-only queries.
#[derive(Debug, Clone)]
pub enum QueryMsg {
    Config {},
    TokenStake { address: String },
    Poll { poll_id: u64 },
}

/// The answer to a poll query.
#[derive(Debug, Clone, PartialEq)]
pub struct PollResponse {
    pub creator: String,
    pub status: PollStatus,
    pub quorum_percentage: u8,
    pub end_height: Option<u64>,
    pub start_height: Option<u64>,
    pub description: String,
}

/// The answer to a stake query.
#[derive(Debug, Clone, PartialEq)]
pub struct TokenStakeResponse {
    pub token_balance: u128,
}

/// What a governance query returns.
#[derive(Debug, Clone, PartialEq)]
pub enum QueryAnswer {
    Config(State),
    TokenStake(TokenStakeResponse),
    Poll(PollResponse),
}

/// The mathematical value of a `State`.
pub struct StateView {
    pub denom: Seq<char>,
    pub owner: Seq<char>,
    pub poll_count: u64,
    pub staked_tokens: u128,
}

impl View for State {
    type V = StateView;

    open spec fn view(&self) -> StateView {
        StateView {
            denom: self.denom@,
            owner: self.owner@,
            poll_count: self.poll_count,
            staked_tokens: self.staked_tokens,
        }
    }
}

/// The mathematical value of a `TokenManager`.
pub struct TokenManagerView {
    pub token_balance: u128,
    pub locked_tokens: Seq<(u64, u128)>,
    pub participated_polls: Seq<u64>,
}

impl View for TokenManager {
    type V = TokenManagerView;

    open spec fn view(&self) -> TokenManagerView {
        TokenManagerView {
            token_balance: self.token_balance,
            locked_tokens: self.locked_tokens@,
            participated_polls: self.participated_polls@,
        }
    }
}

/// The mathematical value of a `Voter`.
pub struct VoterView {
    pub vote: Seq<char>,
    pub weight: u128,
}

impl View for Voter {
    type V = VoterView;

    open spec fn view(&self) -> VoterView {
        VoterView { vote: self.vote@, weight: self.weight }
    }
}

/// The mathematical value of a `Poll`.
pub struct PollView {
    pub creator: Seq<char>,
    pub status: PollStatus,
    pub quorum_percentage: u8,
    pub yes_votes: u128,
    pub no_votes: u128,
    pub voters: Seq<Seq<char>>,
    pub voter_info: Seq<VoterView>,
    pub end_height: Option<u64>,
    pub start_height: Option<u64>,
    pub description: Seq<char>,
}

impl View for Poll {
    type V = PollView;

    open spec fn view(&self) -> PollView {
        PollView {
            creator: self.creator@,
            status: self.status,
            quorum_percentage: self.quorum_percentage,
            yes_votes: self.yes_votes,
            no_votes: self.no_votes,
            voters: self.voters@.map_values(|v: String| v@),
            voter_info: self.voter_info@.map_values(|v: Voter| v@),
            end_height: self.end_height,
            start_height: self.start_height,
            description: self.description@,
        }
    }
}

/// The stake accounts as key/value pairs of mathematical values.
pub open spec fn bank_view(bank: Seq<(String, TokenManager)>) -> Seq<
    (Seq<char>, TokenManagerView),
> {
    bank.map_values(|e: (String, TokenManager)| (e.0@, e.1@))
}

/// The mathematical value of the whole governance state.
pub struct GovernanceView {
    pub state: StateView,
    pub polls: Seq<PollView>,
    pub bank: Seq<(Seq<char>, TokenManagerView)>,
}

impl View for Governance {
    type V = GovernanceView;

    open spec fn view(&self) -> GovernanceView {
        GovernanceView {
            state: self.state@,
            polls: self.polls@.map_values(|p: Poll| p@),
            bank: bank_view(self.bank@),
        }
    }
}

/// The first stake account under `key`, if any.
pub open spec fn bank_lookup(bank: Seq<(Seq<char>, TokenManagerView)>, key: Seq<char>) -> Option<
    TokenManagerView,
>
    decreases bank.len(),
{
    if bank.len() == 0 {
        None
    } else if bank[0].0 == key {
        Some(bank[0].1)
    } else {
        bank_lookup(bank.drop_first(), key)
    }
}

/// The sum of all stake balances.
pub open spec fn sum_bank(bank: Seq<(Seq<char>, TokenManagerView)>) -> nat
    decreases bank.len(),
{
    if bank.len() == 0 {
        0
    } else {
        sum_bank(bank.drop_last()) + (bank.last().1.token_balance as nat)
    }
}

/// No account appears twice in the stake accounts.
pub open spec fn bank_keys_unique(bank: Seq<(Seq<char>, TokenManagerView)>) -> bool {
    forall|i: int, j: int| 0 <= i < j < bank.len() ==> bank[i].0 != bank[j].0
}

/// No voter appears twice in a poll's voter list.
pub open spec fn voters_unique(voters: Seq<Seq<char>>) -> bool {
    forall|i: int, j: int| 0 <= i < j < voters.len() ==> voters[i] != voters[j]
}

/// Whether `v` already appears in a poll's voter list.
pub open spec fn spec_has_voted(voters: Seq<Seq<char>>, v: Seq<char>) -> bool {
    exists|i: int| 0 <= i < voters.len() && voters[i] == v
}

/// The largest weight locked across the listed poll participations.
pub open spec fn max_locked(locked: Seq<(u64, u128)>) -> nat
    decreases locked.len(),
{
    if locked.len() == 0 {
        0
    } else {
        let rest = max_locked(locked.drop_last());
        if locked.last().1 as nat > rest {
            locked.last().1 as nat
        } else {
            rest
        }
    }
}

/// The participations left once a poll's lock is cleared.
pub open spec fn without_poll(locked: Seq<(u64, u128)>, poll_id: u64) -> Seq<(u64, u128)>
    decreases locked.len(),
{
    if locked.len() == 0 {
        Seq::empty()
    } else {
        let rest = without_poll(locked.drop_last(), poll_id);
        if locked.last().0 == poll_id {
            rest
        } else {
            rest.push(locked.last())
        }
    }
}

/// Well-formedness of a governance state: poll ids are sequential,
/// stake accounts are keyed uniquely, the aggregate staked-token
/// counter equals the sum of all stake balances (conservation of
/// stakes), and no poll lists a voter twice.
pub open spec fn gov_inv(gov: GovernanceView) -> bool {
    &&& gov.state.poll_count == gov.polls.len()
    &&& bank_keys_unique(gov.bank)
    &&& gov.state.staked_tokens as nat == sum_bank(gov.bank)
    &&& forall|p: int| 0 <= p < gov.polls.len() ==> voters_unique(#[trigger] gov.polls[p].voters)
}

/// Looking a key up finds its first occurrence.
proof fn lemma_bank_lookup_at(bank: Seq<(Seq<char>, TokenManagerView)>, key: Seq<char>, i: int)
    requires
        0 <= i < bank.len(),
        bank[i].0 == key,
        forall|j: int| 0 <= j < i ==> bank[j].0 != key,
    ensures
        bank_lookup(bank, key) == Some(bank[i].1),
    decreases i,
{
    if i > 0 {
        lemma_bank_lookup_at(bank.drop_first(), key, i - 1);
    }
}

/// Looking up a key that no entry holds finds nothing.
proof fn lemma_bank_lookup_none(bank: Seq<(Seq<char>, TokenManagerView)>, key: Seq<char>)
    requires
        forall|j: int| 0 <= j < bank.len() ==> bank[j].0 != key,
    ensures
        bank_lookup(bank, key) is None,
    decreases bank.len(),
{
    if bank.len() > 0 {
        lemma_bank_lookup_none(bank.drop_first(), key);
    }
}

/// Replacing the first entry of a key changes only that key's lookup.
proof fn lemma_bank_lookup_update(
    bank: Seq<(Seq<char>, TokenManagerView)>,
    i: int,
    e: (Seq<char>, TokenManagerView),
)
    requires
        0 <= i < bank.len(),
        e.0 == bank[i].0,
        forall|j: int| 0 <= j < i ==> bank[j].0 != e.0,
    ensures
        bank_lookup(bank.update(i, e), e.0) == Some(e.1),
        forall|k: Seq<char>|
            k != e.0 ==> #[trigger] bank_lookup(bank.update(i, e), k) == bank_lookup(bank, k),
    decreases i,
{
    let upd = bank.update(i, e);
    if i == 0 {
        assert forall|k: Seq<char>| k != e.0 implies #[trigger] bank_lookup(upd, k)
            == bank_lookup(bank, k) by {
            assert(upd.drop_first() =~= bank.drop_first());
        }
    } else {
        assert(upd.drop_first() =~= bank.drop_first().update(i - 1, e));
        lemma_bank_lookup_update(bank.drop_first(), i - 1, e);
        assert(bank_lookup(upd, e.0) == Some(e.1));
        assert forall|k: Seq<char>| k != e.0 implies #[trigger] bank_lookup(upd, k)
            == bank_lookup(bank, k) by {
            if bank[0].0 == k {
            } else {
                assert(bank_lookup(upd.drop_first(), k) == bank_lookup(bank.drop_first(), k));
            }
        }
    }
}

/// Appending a fresh key changes only that key's lookup.
proof fn lemma_bank_lookup_push(
    bank: Seq<(Seq<char>, TokenManagerView)>,
    e: (Seq<char>, TokenManagerView),
)
    requires
        forall|j: int| 0 <= j < bank.len() ==> bank[j].0 != e.0,
    ensures
        bank_lookup(bank.push(e), e.0) == Some(e.1),
        forall|k: Seq<char>|
            k != e.0 ==> #[trigger] bank_lookup(bank.push(e), k) == bank_lookup(bank, k),
    decreases bank.len(),
{
    let p = bank.push(e);
    if bank.len() == 0 {
        assert(p[0] == e);
        assert forall|k: Seq<char>| k != e.0 implies #[trigger] bank_lookup(p, k) == bank_lookup(
            bank,
            k,
        ) by {
            assert(p.drop_first() =~= Seq::<(Seq<char>, TokenManagerView)>::empty());
            assert(bank_lookup(p.drop_first(), k) is None);
        }
    } else {
        assert(p[0] == bank[0]);
        assert(p.drop_first() =~= bank.drop_first().push(e));
        lemma_bank_lookup_push(bank.drop_first(), e);
        assert(bank_lookup(p.drop_first(), e.0) == Some(e.1));
        assert(bank_lookup(p, e.0) == Some(e.1));
        assert forall|k: Seq<char>| k != e.0 implies #[trigger] bank_lookup(p, k) == bank_lookup(
            bank,
            k,
        ) by {
            if bank[0].0 == k {
            } else {
                assert(bank_lookup(bank.drop_first().push(e), k) == bank_lookup(
                    bank.drop_first(),
                    k,
                ));
                assert(bank_lookup(p.drop_first(), k) == bank_lookup(bank.drop_first(), k));
            }
        }
    }
}

/// Replacing one entry moves the sum of balances by the difference.
proof fn lemma_sum_bank_update(
    bank: Seq<(Seq<char>, TokenManagerView)>,
    i: int,
    e: (Seq<char>, TokenManagerView),
)
    requires
        0 <= i < bank.len(),
    ensures
        sum_bank(bank.update(i, e)) + bank[i].1.token_balance == sum_bank(bank)
            + e.1.token_balance,
    decreases bank.len(),
{
    let upd = bank.update(i, e);
    if i == bank.len() - 1 {
        assert(upd.drop_last() =~= bank.drop_last());
    } else {
        assert(upd.drop_last() =~= bank.drop_last().update(i, e));
        lemma_sum_bank_update(bank.drop_last(), i, e);
    }
}

/// No single balance exceeds the sum of all balances.
proof fn lemma_bank_entry_le_sum(bank: Seq<(Seq<char>, TokenManagerView)>, i: int)
    requires
        0 <= i < bank.len(),
    ensures
        bank[i].1.token_balance <= sum_bank(bank),
    decreases bank.len(),
{
    if i < bank.len() - 1 {
        lemma_bank_entry_le_sum(bank.drop_last(), i);
    }
}

impl TokenManager {
    /// A fresh stake account: nothing staked, nothing locked.
    pub fn new() -> (tm: TokenManager)
        ensures
            tm@.token_balance == 0,
            tm@.locked_tokens.len() == 0,
            tm@.participated_polls.len() == 0,
    {
        TokenManager { token_balance: 0, locked_tokens: Vec::new(), participated_polls: Vec::new() }
    }
}

/// Finds the first stake account of `key`, with the index it lives at.
fn bank_find(bank: &Vec<(String, TokenManager)>, key: &String) -> (r: Option<usize>)
    ensures
        match r {
            Some(i) => {
                &&& i < bank@.len()
                &&& bank@[i as int].0@ == key@
                &&& (forall|j: int| 0 <= j < i ==> bank@[j].0@ != key@)
                &&& bank_lookup(bank_view(bank@), key@) == Some(bank@[i as int].1@)
            },
            None => {
                &&& (forall|j: int| 0 <= j < bank@.len() ==> bank@[j].0@ != key@)
                &&& bank_lookup(bank_view(bank@), key@) is None
            },
        },
{
    let n = bank.len();
    let mut i: usize = 0;
    while i < n
        invariant
            n == bank@.len(),
            i <= n,
            forall|j: int| 0 <= j < i ==> bank@[j].0@ != key@,
        decreases n - i,
    {
        if bank[i].0 == *key {
            proof {
                lemma_bank_lookup_at(bank_view(bank@), key@, i as int);
            }
            return Some(i);
        }
        i = i + 1;
    }
    proof {
        lemma_bank_lookup_none(bank_view(bank@), key@);
    }
    None
}

/// Whether enough of a required coin came with the message: some sent
/// coin of the right denomination carries at least the required
/// amount. No requirement, or a required amount of zero, always
/// passes.
pub open spec fn sent_sufficient(funds: Seq<Coin>, denom: Seq<char>, required: nat) -> bool {
    exists|i: int|
        0 <= i < funds.len() && funds[i].denom@ == denom && funds[i].amount as nat >= required
}

/// Rejects a message whose attached funds do not meet the requirement.
pub fn assert_sent_sufficient_coin(sent: &Vec<Coin>, required: Option<Coin>) -> (r: Result<
    (),
    Error,
>)
    ensures
        match r {
            Ok(_) => match required {
                Some(c) => c.amount == 0 || sent_sufficient(sent@, c.denom@, c.amount as nat),
                None => true,
            },
            Err(e) => {
                &&& e == Error::InsufficientFundsSent
                &&& required matches Some(c) && c.amount > 0 && !sent_sufficient(
                    sent@,
                    c.denom@,
                    c.amount as nat,
                )
            },
        },
{
    if required.is_none() {
        return Ok(());
    }
    let required_coin = required.as_ref().unwrap();
    proof {
        assert(required == Some(*required_coin));
    }
    if required_coin.amount == 0 {
        return Ok(());
    }
    let n = sent.len();
    let mut i: usize = 0;
    while i < n
        invariant
            required == Some(*required_coin),
            required_coin.amount > 0,
            n == sent@.len(),
            i <= n,
            forall|j: int|
                0 <= j < i ==> !(sent@[j].denom@ == required_coin.denom@ && sent@[j].amount
                    >= required_coin.amount),
        decreases n - i,
    {
        if sent[i].denom == required_coin.denom && sent[i].amount >= required_coin.amount {
            proof {
                let wi = i as int;
                assert(0 <= wi < sent@.len() && sent@[wi].denom@ == required_coin.denom@ && sent@[
                    wi
                ].amount as nat >= required_coin.amount as nat);
                assert(sent_sufficient(sent@, required_coin.denom@, required_coin.amount as nat));
            }
            return Ok(());
        }
        i = i + 1;
    }
    Err(Error::InsufficientFundsSent)
}

/// The amount of the first sent coin in the staking denomination.
pub open spec fn first_match_amount(funds: Seq<Coin>, denom: Seq<char>) -> nat
    decreases funds.len(),
{
    if funds.len() == 0 {
        0
    } else if funds[0].denom@ == denom {
        funds[0].amount as nat
    } else {
        first_match_amount(funds.drop_first(), denom)
    }
}

proof fn lemma_first_match_at(funds: Seq<Coin>, denom: Seq<char>, i: int)
    requires
        0 <= i < funds.len(),
        funds[i].denom@ == denom,
        forall|j: int| 0 <= j < i ==> funds[j].denom@ != denom,
    ensures
        first_match_amount(funds, denom) == funds[i].amount as nat,
    decreases i,
{
    if i > 0 {
        lemma_first_match_at(funds.drop_first(), denom, i - 1);
    }
}

/// Builds the response that moves funds between two parties.
fn send_tokens(from_address: &String, to_address: &String, amount: Vec<Coin>, action: &str) -> (r:
    HandleResponse)
    ensures
        r.messages@.len() == 1,
        (r.messages@[0] matches BankMsg::Send { from_address: f, to_address: t, amount: a }
            && f@ == from_address@ && t@ == to_address@ && a@ == amount@),
        r.log@.len() == 2,
        log_is(r.log@[0], "action"@, action@),
        log_is(r.log@[1], "to"@, to_address@),
{
    let mut messages: Vec<BankMsg> = Vec::new();
    messages.push(
        BankMsg::Send {
            from_address: from_address.clone(),
            to_address: to_address.clone(),
            amount,
        },
    );
    let mut lg: Vec<LogAttribute> = Vec::new();
    lg.push(log("action", action));
    lg.push(log("to", to_address.as_str()));
    HandleResponse { messages, log: lg }
}

/// Whether two coin lists carry the same denominations and amounts.
pub open spec fn coins_eq(a: Seq<Coin>, b: Seq<Coin>) -> bool {
    a.len() == b.len() && forall|i: int|
        0 <= i < a.len() ==> #[trigger] a[i].denom@ == b[i].denom@ && a[i].amount == b[i].amount
}

/// Copies a coin list.
fn clone_coins(v: &Vec<Coin>) -> (r: Vec<Coin>)
    ensures
        coins_eq(r@, v@),
{
    let n = v.len();
    let mut r: Vec<Coin> = Vec::new();
    let mut i: usize = 0;
    while i < n
        invariant
            n == v@.len(),
            i <= n,
            r@.len() == i,
            forall|j: int|
                0 <= j < i ==> #[trigger] r@[j].denom@ == v@[j].denom@ && r@[j].amount
                    == v@[j].amount,
        decreases n - i,
    {
        let c = coin(v[i].amount, v[i].denom.as_str());
        r.push(c);
        i = i + 1;
    }
    r
}

/// Finds the amount of the first sent coin in the given denomination.
fn find_sent_amount(funds: &Vec<Coin>, denom: &String) -> (r: Option<u128>)
    ensures
        match r {
            Some(a) => a as nat == first_match_amount(funds@, denom@),
            None => forall|i: int| 0 <= i < funds@.len() ==> funds@[i].denom@ != denom@,
        },
{
    let n = funds.len();
    let mut i: usize = 0;
    while i < n
        invariant
            n == funds@.len(),
            i <= n,
            forall|j: int| 0 <= j < i ==> funds@[j].denom@ != denom@,
        decreases n - i,
    {
        if funds[i].denom == *denom {
            proof {
                lemma_first_match_at(funds@, denom@, i as int);
            }
            return Some(funds[i].amount);
        }
        i = i + 1;
    }
    None
}

/// The full contract of `stake_voting_tokens`: the first sent coin in
/// the staking denomination is credited to the sender's stake account
/// and to the aggregate staked-token counter, and the funds move into
/// contract custody.
pub open spec fn stake_spec(
    gov0: GovernanceView,
    gov1: GovernanceView,
    env: Env,
    r: Result<HandleResponse, Error>,
) -> bool {
    let sender = env.message.sender@;
    let funds = env.message.sent_funds@;
    match r {
        Ok(resp) => {
            let sent = first_match_amount(funds, gov0.state.denom);
            &&& sent_sufficient(funds, gov0.state.denom, MIN_STAKE_AMOUNT as nat)
            &&& gov1.state.denom == gov0.state.denom
            &&& gov1.state.owner == gov0.state.owner
            &&& gov1.state.poll_count == gov0.state.poll_count
            &&& gov1.state.staked_tokens as nat == gov0.state.staked_tokens as nat + sent
            &&& gov1.polls == gov0.polls
            &&& (match (bank_lookup(gov0.bank, sender), bank_lookup(gov1.bank, sender)) {
                (Some(tm0), Some(tm1)) => tm1.token_balance as nat == tm0.token_balance as nat
                    + sent && tm1.locked_tokens == tm0.locked_tokens && tm1.participated_polls
                    == tm0.participated_polls,
                (None, Some(tm1)) => tm1.token_balance as nat == sent && tm1.locked_tokens.len()
                    == 0 && tm1.participated_polls.len() == 0,
                _ => false,
            })
            &&& (forall|k: Seq<char>|
                k != sender ==> #[trigger] bank_lookup(gov1.bank, k) == bank_lookup(gov0.bank, k))
            &&& gov_inv(gov1)
            &&& resp.messages@.len() == 1
            &&& (resp.messages@[0] matches BankMsg::Send { from_address, to_address, amount }
                && from_address@ == sender && to_address@ == env.contract.address@ && coins_eq(
                amount@,
                funds,
            ))
            &&& resp.log@.len() == 2
            &&& log_is(resp.log@[0], "action"@, "approve"@)
            &&& log_is(resp.log@[1], "to"@, env.contract.address@)
        },
        Err(e) => {
            &&& gov1 == gov0
            &&& e == Error::InsufficientFundsSent
            &&& !sent_sufficient(funds, gov0.state.denom, MIN_STAKE_AMOUNT as nat)
        },
    }
}

/// Credits the attached funds in the staking denomination to the
/// sender's stake account, creating it on first use, and instructs the
/// host to move the funds into contract custody.
pub fn stake_voting_tokens(gov: &mut Governance, env: &Env) -> (r: Result<HandleResponse, Error>)
    requires
        gov_inv(old(gov)@),
        sent_sufficient(
            env.message.sent_funds@,
            old(gov)@.state.denom,
            MIN_STAKE_AMOUNT as nat,
        ) ==> old(gov)@.state.staked_tokens as nat + first_match_amount(
            env.message.sent_funds@,
            old(gov)@.state.denom,
        ) <= u128::MAX,
    ensures
        stake_spec(old(gov)@, final(gov)@, *env, r),
{
    let min = coin(MIN_STAKE_AMOUNT, gov.state.denom.as_str());
    match assert_sent_sufficient_coin(&env.message.sent_funds, Some(min)) {
        Ok(_) => {},
        Err(e) => {
            return Err(e);
        },
    }
    let sent = match find_sent_amount(&env.message.sent_funds, &gov.state.denom) {
        Some(a) => a,
        None => unreached(),
    };
    let ghost bank0 = gov@.bank;
    let ghost sender = env.message.sender@;
    match bank_find(&gov.bank, &env.message.sender) {
        Some(i) => {
            let entry = gov.bank.remove(i);
            let (key_string, mut tm) = entry;
            proof {
                lemma_bank_entry_le_sum(bank0, i as int);
            }
            tm.token_balance = tm.token_balance + sent;
            gov.bank.insert(i, (key_string, tm));
            proof {
                assert(bank_view(gov.bank@) =~= bank0.update(
                    i as int,
                    (sender, gov.bank@[i as int].1@),
                ));
                lemma_bank_lookup_update(bank0, i as int, (sender, gov.bank@[i as int].1@));
                lemma_sum_bank_update(bank0, i as int, (sender, gov.bank@[i as int].1@));
            }
        },
        None => {
            let mut tm = TokenManager::new();
            tm.token_balance = sent;
            gov.bank.push((env.message.sender.clone(), tm));
            proof {
                let e = (sender, gov.bank@[gov.bank@.len() - 1].1@);
                assert(bank_view(gov.bank@) =~= bank0.push(e));
                lemma_bank_lookup_push(bank0, e);
                assert(bank0.push(e).drop_last() =~= bank0);
                assert(sum_bank(bank0.push(e)) == sum_bank(bank0) + sent as nat);
            }
        },
    }
    gov.state.staked_tokens = gov.state.staked_tokens + sent;
    let amount = clone_coins(&env.message.sent_funds);
    Ok(send_tokens(&env.message.sender, &env.contract.address, amount, "approve"))
}

/// The full contract of `withdraw_voting_tokens`: a withdrawal never
/// succeeds if the withdrawn amount plus the sender's largest
/// open-poll lock would exceed the staked balance.
pub open spec fn withdraw_spec(
    gov0: GovernanceView,
    gov1: GovernanceView,
    env: Env,
    amount: Option<u128>,
    r: Result<HandleResponse, Error>,
) -> bool {
    let sender = env.message.sender@;
    match r {
        Ok(resp) => match bank_lookup(gov0.bank, sender) {
            Some(tm0) => {
                let withdraw = if amount is Some {
                    amount->0 as nat
                } else {
                    tm0.token_balance as nat
                };
                &&& max_locked(tm0.locked_tokens) + withdraw <= tm0.token_balance as nat
                &&& gov1.state.denom == gov0.state.denom
                &&& gov1.state.owner == gov0.state.owner
                &&& gov1.state.poll_count == gov0.state.poll_count
                &&& gov1.state.staked_tokens as nat + withdraw == gov0.state.staked_tokens as nat
                &&& gov1.polls == gov0.polls
                &&& (match bank_lookup(gov1.bank, sender) {
                    Some(tm1) => tm1.token_balance as nat + withdraw
                        == tm0.token_balance as nat && tm1.locked_tokens == tm0.locked_tokens
                        && tm1.participated_polls == tm0.participated_polls,
                    None => false,
                })
                &&& (forall|k: Seq<char>|
                    k != sender ==> #[trigger] bank_lookup(gov1.bank, k) == bank_lookup(
                        gov0.bank,
                        k,
                    ))
                &&& gov_inv(gov1)
                &&& resp.messages@.len() == 1
                &&& (resp.messages@[0] matches BankMsg::Send { from_address, to_address, amount }
                    && from_address@ == env.contract.address@ && to_address@ == sender
                    && amount@.len() == 1 && amount@[0].denom@ == gov0.state.denom
                    && amount@[0].amount as nat == withdraw)
                &&& resp.log@.len() == 2
                &&& log_is(resp.log@[0], "action"@, "approve"@)
                &&& log_is(resp.log@[1], "to"@, sender)
            },
            None => false,
        },
        Err(e) => {
            &&& gov1 == gov0
            &&& (bank_lookup(gov0.bank, sender) is None <==> e == Error::NothingStaked)
            &&& (match bank_lookup(gov0.bank, sender) {
                Some(tm0) => {
                    let withdraw = if amount is Some {
                        amount->0 as nat
                    } else {
                        tm0.token_balance as nat
                    };
                    max_locked(tm0.locked_tokens) + withdraw > tm0.token_balance as nat && e
                        == Error::ExcessiveWithdrawal
                },
                None => true,
            })
        },
    }
}

/// The largest weight the voter has locked across the polls they have
/// participated in; zero when the voter holds no stake account or no
/// locks.
fn locked_amount(voter: &String, gov: &Governance) -> (r: u128)
    ensures
        r as nat == (match bank_lookup(gov@.bank, voter@) {
            Some(tm) => max_locked(tm.locked_tokens),
            None => 0,
        }),
{
    let i = match bank_find(&gov.bank, voter) {
        Some(i) => i,
        None => {
            return 0;
        },
    };
    let locked = &gov.bank[i].1.locked_tokens;
    let n = locked.len();
    let mut m: u128 = 0;
    let mut j: usize = 0;
    proof {
        assert(locked@.take(0) =~= Seq::<(u64, u128)>::empty());
    }
    while j < n
        invariant
            n == locked@.len(),
            j <= n,
            m as nat == max_locked(locked@.take(j as int)),
        decreases n - j,
    {
        let entry = locked[j];
        proof {
            assert(locked@.take(j as int + 1).drop_last() =~= locked@.take(j as int));
            assert(locked@.take(j as int + 1).last() == locked@[j as int]);
        }
        if entry.1 > m {
            m = entry.1;
        }
        j = j + 1;
    }
    proof {
        assert(locked@.take(n as int) =~= locked@);
    }
    m
}

/// Returns staked tokens to the sender — all of them when no amount is
/// named — unless tokens locked in open polls would be left uncovered.
pub fn withdraw_voting_tokens(gov: &mut Governance, env: &Env, amount: Option<u128>) -> (r: Result<
    HandleResponse,
    Error,
>)
    requires
        gov_inv(old(gov)@),
    ensures
        withdraw_spec(old(gov)@, final(gov)@, *env, amount, r),
{
    let ghost bank0 = gov@.bank;
    let ghost sender = env.message.sender@;
    match bank_find(&gov.bank, &env.message.sender) {
        None => Err(Error::NothingStaked),
        Some(i) => {
            let largest_staked = locked_amount(&env.message.sender, gov);
            let balance = gov.bank[i].1.token_balance;
            let withdraw_amount = match amount {
                Some(a) => a,
                None => balance,
            };
            if largest_staked > balance || withdraw_amount > balance - largest_staked {
                Err(Error::ExcessiveWithdrawal)
            } else {
                proof {
                    lemma_bank_entry_le_sum(bank0, i as int);
                }
                let entry = gov.bank.remove(i);
                let (key_string, mut tm) = entry;
                tm.token_balance = tm.token_balance - withdraw_amount;
                gov.bank.insert(i, (key_string, tm));
                proof {
                    assert(bank_view(gov.bank@) =~= bank0.update(
                        i as int,
                        (sender, gov.bank@[i as int].1@),
                    ));
                    lemma_bank_lookup_update(bank0, i as int, (sender, gov.bank@[i as int].1@));
                    lemma_sum_bank_update(bank0, i as int, (sender, gov.bank@[i as int].1@));
                }
                gov.state.staked_tokens = gov.state.staked_tokens - withdraw_amount;
                let amount_coins = crate::types::coins(withdraw_amount, gov.state.denom.as_str());
                Ok(
                    send_tokens(
                        &env.contract.address,
                        &env.message.sender,
                        amount_coins,
                        "approve",
                    ),
                )
            }
        },
    }
}

/// Whether a character is outside the poll-description charset
/// (lowercase letters, digits, `.`, `-`, `_` and space).
pub open spec fn spec_invalid_char(c: char) -> bool {
    !((48 <= c as u32 <= 57) || (97 <= c as u32 <= 122) || c as u32 == 46 || c as u32 == 45
        || c as u32 == 95 || c as u32 == 32)
}

/// Whether `c` may not appear in a poll description.
pub fn invalid_char(c: char) -> (r: bool)
    ensures
        r == spec_invalid_char(c),
{
    let u = c as u32;
    let is_valid = (48 <= u && u <= 57) || (97 <= u && u <= 122) || (u == 46 || u == 45 || u == 95
        || u == 32);
    !is_valid
}

/// Whether every character of a description is acceptable.
pub open spec fn desc_chars_ok(s: Seq<char>) -> bool {
    forall|i: int| 0 <= i < s.len() ==> !spec_invalid_char(#[trigger] s[i])
}

/// Whether a description's byte length is acceptable.
pub open spec fn desc_len_ok(s: Seq<char>) -> bool {
    MIN_DESC_LENGTH <= encode_utf8(s).len() <= MAX_DESC_LENGTH
}

/// Rejects a description that is too short, too long, or holds a
/// character outside the charset; the first offending character is
/// reported.
fn validate_description(description: &str) -> (r: Result<(), Error>)
    ensures
        match r {
            Ok(_) => desc_len_ok(description@) && desc_chars_ok(description@),
            Err(e) => {
                &&& (encode_utf8(description@).len() < MIN_DESC_LENGTH ==> e
                    == Error::DescriptionTooShort)
                &&& (encode_utf8(description@).len() > MAX_DESC_LENGTH ==> e
                    == Error::DescriptionTooLong)
                &&& (desc_len_ok(description@) ==> exists|i: int|
                    0 <= i < description@.len() && spec_invalid_char(#[trigger] description@[i])
                        && e == (Error::InvalidCharacter { c: description@[i] }) && (forall|j: int|
                        0 <= j < i ==> !spec_invalid_char(description@[j])))
            },
        },
{
    let bytes = description.as_bytes();
    proof {
        assert(bytes@ == encode_utf8(description@));
    }
    if bytes.len() < MIN_DESC_LENGTH {
        return Err(Error::DescriptionTooShort);
    }
    if bytes.len() > MAX_DESC_LENGTH {
        return Err(Error::DescriptionTooLong);
    }
    let n = description.unicode_len();
    let mut i: usize = 0;
    while i < n
        invariant
            desc_len_ok(description@),
            n == description@.len(),
            i <= n,
            forall|j: int| 0 <= j < i ==> !spec_invalid_char(#[trigger] description@[j]),
        decreases n - i,
    {
        let c = description.get_char(i);
        if invalid_char(c) {
            proof {
                let wi = i as int;
                assert(0 <= wi < description@.len() && spec_invalid_char(description@[wi]));
            }
            return Err(Error::InvalidCharacter { c });
        }
        i = i + 1;
    }
    Ok(())
}

/// Rejects a quorum percentage above one hundred.
fn validate_quorum_percentage(quorum_percentage: u8) -> (r: Result<(), Error>)
    ensures
        r is Ok <==> quorum_percentage <= 100,
        r matches Err(e) ==> e == Error::InvalidQuorumPercentage,
{
    if quorum_percentage > 100 {
        Err(Error::InvalidQuorumPercentage)
    } else {
        Ok(())
    }
}

/// The full contract of `create_poll`: a validated poll is appended
/// under the next sequential id, in progress and empty.
pub open spec fn create_poll_spec(
    gov0: GovernanceView,
    gov1: GovernanceView,
    env: Env,
    quorum_percentage: u8,
    description: Seq<char>,
    start_height: Option<u64>,
    end_height: Option<u64>,
    r: Result<HandleResponse, Error>,
) -> bool {
    match r {
        Ok(resp) => {
            &&& quorum_percentage <= 100
            &&& desc_len_ok(description)
            &&& desc_chars_ok(description)
            &&& gov1.state.denom == gov0.state.denom
            &&& gov1.state.owner == gov0.state.owner
            &&& gov1.state.staked_tokens == gov0.state.staked_tokens
            &&& gov1.state.poll_count == gov0.state.poll_count + 1
            &&& gov1.bank == gov0.bank
            &&& gov1.polls.len() == gov0.polls.len() + 1
            &&& (forall|i: int| 0 <= i < gov0.polls.len() ==> gov1.polls[i] == gov0.polls[i])
            &&& gov1.polls.last() == (PollView {
                creator: env.message.sender@,
                status: PollStatus::InProgress,
                quorum_percentage,
                yes_votes: 0,
                no_votes: 0,
                voters: Seq::empty(),
                voter_info: Seq::empty(),
                end_height,
                start_height,
                description,
            })
            &&& gov_inv(gov1)
            &&& resp.messages@.len() == 0
            &&& resp.log@.len() == 6
            &&& log_is(resp.log@[0], "action"@, "create_poll"@)
            &&& log_is(resp.log@[1], "creator"@, env.message.sender@)
            &&& log_is(resp.log@[2], "poll_id"@, dec_of((gov0.state.poll_count + 1) as nat))
            &&& log_is(resp.log@[3], "quorum_percentage"@, dec_of(quorum_percentage as nat))
            &&& log_is(
                resp.log@[4],
                "end_height"@,
                dec_of(
                    (match end_height {
                        Some(h) => h,
                        None => 0,
                    }) as nat,
                ),
            )
            &&& log_is(
                resp.log@[5],
                "start_height"@,
                dec_of(
                    (match start_height {
                        Some(h) => h,
                        None => 0,
                    }) as nat,
                ),
            )
        },
        Err(e) => {
            &&& gov1 == gov0
            &&& (quorum_percentage > 100 ==> e == Error::InvalidQuorumPercentage)
            &&& (quorum_percentage <= 100 ==> {
                &&& (encode_utf8(description).len() < MIN_DESC_LENGTH ==> e
                    == Error::DescriptionTooShort)
                &&& (encode_utf8(description).len() > MAX_DESC_LENGTH ==> e
                    == Error::DescriptionTooLong)
                &&& (desc_len_ok(description) ==> exists|i: int|
                    0 <= i < description.len() && spec_invalid_char(#[trigger] description[i]) && e
                        == (Error::InvalidCharacter { c: description[i] }) && (forall|j: int|
                        0 <= j < i ==> !spec_invalid_char(description[j])))
            })
        },
    }
}

/// Creates a poll with the next sequential id, after validating the
/// quorum percentage and the description.
pub fn create_poll(
    gov: &mut Governance,
    env: &Env,
    quorum_percentage: u8,
    description: String,
    start_height: Option<u64>,
    end_height: Option<u64>,
) -> (r: Result<HandleResponse, Error>)
    requires
        gov_inv(old(gov)@),
        old(gov)@.state.poll_count < u64::MAX,
    ensures
        create_poll_spec(
            old(gov)@,
            final(gov)@,
            *env,
            quorum_percentage,
            description@,
            start_height,
            end_height,
            r,
        ),
{
    match validate_quorum_percentage(quorum_percentage) {
        Ok(_) => {},
        Err(e) => {
            return Err(e);
        },
    }
    match validate_description(description.as_str()) {
        Ok(_) => {},
        Err(e) => {
            return Err(e);
        },
    }
    let ghost polls0 = gov@.polls;
    let poll_count = gov.state.poll_count;
    let poll_id = poll_count + 1;
    gov.state.poll_count = poll_id;
    let new_poll = Poll {
        creator: env.message.sender.clone(),
        status: PollStatus::InProgress,
        quorum_percentage,
        yes_votes: 0,
        no_votes: 0,
        voters: Vec::new(),
        voter_info: Vec::new(),
        end_height,
        start_height,
        description,
    };
    gov.polls.push(new_poll);
    proof {
        assert(gov@.polls =~= polls0.push(gov.polls@.last()@));
        assert(gov.polls@.last()@.voters =~= Seq::<Seq<char>>::empty());
        assert(gov.polls@.last()@.voter_info =~= Seq::<VoterView>::empty());
        assert(gov@.polls.last() == (PollView {
            creator: env.message.sender@,
            status: PollStatus::InProgress,
            quorum_percentage,
            yes_votes: 0,
            no_votes: 0,
            voters: Seq::empty(),
            voter_info: Seq::empty(),
            end_height,
            start_height,
            description: gov.polls@.last().description@,
        }));
        assert forall|p: int| 0 <= p < gov@.polls.len() implies voters_unique(
            #[trigger] gov@.polls[p].voters,
        ) by {
            if p < polls0.len() {
                assert(gov@.polls[p] == polls0[p]);
            }
        }
    }
    let mut lg: Vec<LogAttribute> = Vec::new();
    lg.push(log("action", "create_poll"));
    lg.push(log("creator", env.message.sender.as_str()));
    let id_str = u64_to_dec_string(poll_id);
    lg.push(log("poll_id", id_str.as_str()));
    let q_str = u64_to_dec_string(quorum_percentage as u64);
    lg.push(log("quorum_percentage", q_str.as_str()));
    let eh_str = u64_to_dec_string(
        match end_height {
            Some(h) => h,
            None => 0,
        },
    );
    lg.push(log("end_height", eh_str.as_str()));
    let sh_str = u64_to_dec_string(
        match start_height {
            Some(h) => h,
            None => 0,
        },
    );
    lg.push(log("start_height", sh_str.as_str()));
    Ok(HandleResponse { messages: Vec::new(), log: lg })
}

/// The stake balance an account has available, zero when it has none.
pub open spec fn stake_balance_of(bank: Seq<(Seq<char>, TokenManagerView)>, k: Seq<char>) -> nat {
    match bank_lookup(bank, k) {
        Some(tm) => tm.token_balance as nat,
        None => 0,
    }
}

/// Whether the voter already appears in the poll's voter list.
fn has_voted(voter: &String, a_poll: &Poll) -> (r: bool)
    ensures
        r == spec_has_voted(a_poll@.voters, voter@),
{
    let n = a_poll.voters.len();
    let mut i: usize = 0;
    while i < n
        invariant
            n == a_poll.voters@.len(),
            i <= n,
            forall|j: int| 0 <= j < i ==> a_poll@.voters[j] != voter@,
        decreases n - i,
    {
        if a_poll.voters[i] == *voter {
            proof {
                assert(a_poll@.voters[i as int] == voter@);
            }
            return true;
        }
        i = i + 1;
    }
    false
}

/// The full contract of `cast_vote`: a voter who has already appeared
/// in the poll's voter list cannot cast a second vote, a vote needs a
/// poll in progress and enough stake, and a cast vote appends the
/// voter, records the vote, and locks its weight.
pub open spec fn cast_vote_spec(
    gov0: GovernanceView,
    gov1: GovernanceView,
    env: Env,
    poll_id: u64,
    vote: Seq<char>,
    weight: u128,
    r: Result<HandleResponse, Error>,
) -> bool {
    let sender = env.message.sender@;
    let in_range = 1 <= poll_id <= gov0.polls.len();
    match r {
        Ok(resp) => {
            let p0 = gov0.polls[poll_id - 1];
            &&& in_range
            &&& p0.status == PollStatus::InProgress
            &&& !spec_has_voted(p0.voters, sender)
            &&& stake_balance_of(gov0.bank, sender) >= weight
            &&& gov1.state == gov0.state
            &&& gov1.polls.len() == gov0.polls.len()
            &&& (forall|i: int|
                0 <= i < gov0.polls.len() && i != poll_id - 1 ==> #[trigger] gov1.polls[i]
                    == gov0.polls[i])
            &&& gov1.polls[poll_id - 1] == (PollView {
                voters: p0.voters.push(sender),
                voter_info: p0.voter_info.push(VoterView { vote, weight }),
                ..p0
            })
            &&& (match (bank_lookup(gov0.bank, sender), bank_lookup(gov1.bank, sender)) {
                (Some(tm0), Some(tm1)) => tm1 == (TokenManagerView {
                    locked_tokens: tm0.locked_tokens.push((poll_id, weight)),
                    participated_polls: tm0.participated_polls.push(poll_id),
                    ..tm0
                }),
                (None, Some(tm1)) => tm1.token_balance == 0 && tm1.locked_tokens == seq![
                    (poll_id, weight),
                ] && tm1.participated_polls == seq![poll_id],
                _ => false,
            })
            &&& (forall|k: Seq<char>|
                k != sender ==> #[trigger] bank_lookup(gov1.bank, k) == bank_lookup(gov0.bank, k))
            &&& gov_inv(gov1)
            &&& resp.messages@.len() == 0
            &&& resp.log@.len() == 4
            &&& log_is(resp.log@[0], "action"@, "vote_casted"@)
            &&& log_is(resp.log@[1], "poll_id"@, dec_of(poll_id as nat))
            &&& log_is(resp.log@[2], "weight"@, dec_of(weight as nat))
            &&& log_is(resp.log@[3], "voter"@, sender)
        },
        Err(e) => {
            &&& gov1 == gov0
            &&& (!in_range ==> e == Error::PollNotFound)
            &&& (in_range ==> {
                let p0 = gov0.polls[poll_id - 1];
                &&& (p0.status != PollStatus::InProgress ==> e == Error::PollNotInProgress)
                &&& (p0.status == PollStatus::InProgress && spec_has_voted(p0.voters, sender) ==> e
                    == Error::AlreadyVoted)
                &&& (p0.status == PollStatus::InProgress && !spec_has_voted(p0.voters, sender)
                    ==> stake_balance_of(gov0.bank, sender) < weight && e
                    == Error::InsufficientStake)
            })
        },
    }
}

/// Casts a vote: rejects an unknown poll, a poll no longer in
/// progress, a repeated voter and insufficient stake, in that order,
/// before any write; then appends the voter and the vote, records the
/// participation, and locks the weight.
pub fn cast_vote(
    gov: &mut Governance,
    env: &Env,
    poll_id: u64,
    vote: String,
    weight: u128,
) -> (r: Result<HandleResponse, Error>)
    requires
        gov_inv(old(gov)@),
    ensures
        cast_vote_spec(old(gov)@, final(gov)@, *env, poll_id, vote@, weight, r),
{
    if poll_id == 0 || poll_id > gov.polls.len() as u64 {
        return Err(Error::PollNotFound);
    }
    let idx = (poll_id - 1) as usize;
    if !(gov.polls[idx].status == PollStatus::InProgress) {
        return Err(Error::PollNotInProgress);
    }
    if has_voted(&env.message.sender, &gov.polls[idx]) {
        return Err(Error::AlreadyVoted);
    }
    let ghost bank0 = gov@.bank;
    let ghost polls0 = gov@.polls;
    let ghost sender = env.message.sender@;
    let found = bank_find(&gov.bank, &env.message.sender);
    let balance = match found {
        Some(i) => gov.bank[i].1.token_balance,
        None => 0,
    };
    if balance < weight {
        return Err(Error::InsufficientStake);
    }
    match found {
        Some(i) => {
            let entry = gov.bank.remove(i);
            let (key_string, mut tm) = entry;
            tm.participated_polls.push(poll_id);
            tm.locked_tokens.push((poll_id, weight));
            gov.bank.insert(i, (key_string, tm));
            proof {
                assert(bank_view(gov.bank@) =~= bank0.update(
                    i as int,
                    (sender, gov.bank@[i as int].1@),
                ));
                lemma_bank_lookup_update(bank0, i as int, (sender, gov.bank@[i as int].1@));
                lemma_sum_bank_update(bank0, i as int, (sender, gov.bank@[i as int].1@));
                assert(gov.bank@[i as int].1@.locked_tokens =~= bank_lookup(
                    bank0,
                    sender,
                ).unwrap().locked_tokens.push((poll_id, weight)));
                assert(gov.bank@[i as int].1@.participated_polls =~= bank_lookup(
                    bank0,
                    sender,
                ).unwrap().participated_polls.push(poll_id));
            }
        },
        None => {
            let mut tm = TokenManager::new();
            tm.participated_polls.push(poll_id);
            tm.locked_tokens.push((poll_id, weight));
            gov.bank.push((env.message.sender.clone(), tm));
            proof {
                let e = (sender, gov.bank@[gov.bank@.len() - 1].1@);
                assert(bank_view(gov.bank@) =~= bank0.push(e));
                lemma_bank_lookup_push(bank0, e);
                assert(bank0.push(e).drop_last() =~= bank0);
                assert(e.1.locked_tokens =~= seq![(poll_id, weight)]);
                assert(e.1.participated_polls =~= seq![poll_id]);
            }
        },
    }
    let mut a_poll = gov.polls.remove(idx);
    let ghost p0 = polls0[idx as int];
    a_poll.voters.push(env.message.sender.clone());
    a_poll.voter_info.push(Voter { vote, weight });
    let ghost x_mid = gov.polls@;
    proof {
        assert(x_mid.map_values(|p: Poll| p@) == polls0.remove(idx as int));
    }
    gov.polls.insert(idx, a_poll);
    proof {
        assert forall|j: int| 0 <= j < polls0.len() implies #[trigger] gov@.polls[j]
            == polls0.update(idx as int, gov.polls@[idx as int]@)[j] by {
            assert(gov@.polls[j] == gov.polls@[j]@);
            if j < idx as int {
                assert(gov.polls@[j] == x_mid[j]);
                assert(x_mid[j]@ == x_mid.map_values(|p: Poll| p@)[j]);
                assert(polls0.remove(idx as int)[j] == polls0[j]);
            } else if j > idx as int {
                assert(gov.polls@[j] == x_mid[j - 1]);
                assert(x_mid[j - 1]@ == x_mid.map_values(|p: Poll| p@)[j - 1]);
                assert(polls0.remove(idx as int)[j - 1] == polls0[j]);
            }
        }
        assert(gov@.polls =~= polls0.update(idx as int, gov.polls@[idx as int]@));
        assert(gov.polls@[idx as int]@.voters =~= p0.voters.push(sender));
        assert(gov.polls@[idx as int]@.voter_info =~= p0.voter_info.push(
            VoterView { vote: vote@, weight },
        ));
        assert(gov@.polls[poll_id - 1] == (PollView {
            voters: p0.voters.push(sender),
            voter_info: p0.voter_info.push(VoterView { vote: vote@, weight }),
            ..p0
        }));
        assert forall|p: int| 0 <= p < gov@.polls.len() implies voters_unique(
            #[trigger] gov@.polls[p].voters,
        ) by {
            if p == idx as int {
                let nv = p0.voters.push(sender);
                assert forall|a: int, b: int| 0 <= a < b < nv.len() implies nv[a] != nv[b] by {
                    if b == nv.len() - 1 {
                        assert(!spec_has_voted(p0.voters, sender));
                        assert(p0.voters[a] != sender);
                    }
                }
            } else {
                assert(gov@.polls[p] == polls0[p]);
            }
        }
    }
    let mut lg: Vec<LogAttribute> = Vec::new();
    lg.push(log("action", "vote_casted"));
    let id_str = u64_to_dec_string(poll_id);
    lg.push(log("poll_id", id_str.as_str()));
    let w_str = u128_to_dec_string(weight);
    lg.push(log("weight", w_str.as_str()));
    lg.push(log("voter", env.message.sender.as_str()));
    Ok(HandleResponse { messages: Vec::new(), log: lg })
}

/// Whether a vote label counts as affirmative: exactly the literal
/// label `yes`; every other label counts as negative.
pub open spec fn is_yes_vote(v: Seq<char>) -> bool {
    v == "yes"@
}

/// The affirmative weight among the cast votes.
pub open spec fn count_yes(voter_info: Seq<VoterView>) -> nat
    decreases voter_info.len(),
{
    if voter_info.len() == 0 {
        0
    } else {
        count_yes(voter_info.drop_last()) + if is_yes_vote(voter_info.last().vote) {
            voter_info.last().weight as nat
        } else {
            0
        }
    }
}

/// The negative weight among the cast votes.
pub open spec fn count_no(voter_info: Seq<VoterView>) -> nat
    decreases voter_info.len(),
{
    if voter_info.len() == 0 {
        0
    } else {
        count_no(voter_info.drop_last()) + if is_yes_vote(voter_info.last().vote) {
            0
        } else {
            voter_info.last().weight as nat
        }
    }
}

/// The whole weight that participated.
pub open spec fn sum_weights(voter_info: Seq<VoterView>) -> nat
    decreases voter_info.len(),
{
    if voter_info.len() == 0 {
        0
    } else {
        sum_weights(voter_info.drop_last()) + (voter_info.last().weight as nat)
    }
}

/// The tally splits the participating weight.
proof fn lemma_counts_split(voter_info: Seq<VoterView>)
    ensures
        count_yes(voter_info) + count_no(voter_info) == sum_weights(voter_info),
    decreases voter_info.len(),
{
    if voter_info.len() > 0 {
        lemma_counts_split(voter_info.drop_last());
    }
}

/// A prefix never outweighs the whole.
proof fn lemma_sum_weights_prefix(voter_info: Seq<VoterView>, j: int)
    requires
        0 <= j <= voter_info.len(),
    ensures
        sum_weights(voter_info.take(j)) <= sum_weights(voter_info),
    decreases voter_info.len() - j,
{
    if j == voter_info.len() {
        assert(voter_info.take(j) =~= voter_info);
    } else {
        lemma_sum_weights_prefix(voter_info, j + 1);
        assert(voter_info.take(j + 1).drop_last() =~= voter_info.take(j));
    }
}

/// The participation percentage, with the truncating division the
/// quorum rule uses: `(tallied / staked) * 100`. A staked weight of
/// zero counts as no participation.
pub open spec fn spec_quorum(tallied: nat, staked: nat) -> nat {
    if staked == 0 {
        0
    } else {
        (tallied / staked) * 100
    }
}

/// Whether a poll passes against a staked weight: votes were cast, the
/// quorum percentage is reached, and the affirmative weight is a
/// strict majority of the participating weight.
pub open spec fn poll_passes(yes: nat, no: nat, quorum_percentage: u8, staked: nat) -> bool {
    let tallied = yes + no;
    &&& tallied > 0
    &&& spec_quorum(tallied, staked) >= quorum_percentage
    &&& yes > tallied / 2
}

/// The reason a poll is rejected, empty when it passes.
pub open spec fn rejection_reason(yes: nat, no: nat, quorum_percentage: u8, staked: nat) -> Seq<
    char,
> {
    let tallied = yes + no;
    if tallied == 0 {
        if quorum_percentage == 0 {
            "No votes"@
        } else {
            "Quorum not reached"@
        }
    } else if spec_quorum(tallied, staked) < quorum_percentage {
        "Quorum not reached"@
    } else if yes > tallied / 2 {
        ""@
    } else {
        "Threshold not reached"@
    }
}

/// Resolves a tally against a staked weight: whether the poll passes,
/// and the rejection reason (empty on a pass). This is the whole
/// quorum/threshold rule as a function of its inputs alone.
pub fn resolve_poll(yes: u128, no: u128, quorum_percentage: u8, staked_weight: u128) -> (r: (
    bool,
    String,
))
    requires
        yes + no <= u128::MAX,
    ensures
        r.0 == poll_passes(yes as nat, no as nat, quorum_percentage, staked_weight as nat),
        r.1@ == rejection_reason(yes as nat, no as nat, quorum_percentage, staked_weight as nat),
{
    let tallied = yes + no;
    if tallied == 0 {
        if quorum_percentage == 0 {
            (false, String::from_str("No votes"))
        } else {
            (false, String::from_str("Quorum not reached"))
        }
    } else {
        let quorum_reached: bool;
        if staked_weight == 0 {
            quorum_reached = quorum_percentage == 0;
        } else {
            let q = tallied / staked_weight;
            if q >= 3 {
                proof {
                    vstd::arithmetic::mul::lemma_mul_inequality(3, q as int, 100);
                }
                quorum_reached = true;
            } else {
                quorum_reached = q * 100 >= quorum_percentage as u128;
            }
        }
        if !quorum_reached {
            (false, String::from_str("Quorum not reached"))
        } else if yes > tallied / 2 {
            (true, String::from_str(""))
        } else {
            (false, String::from_str("Threshold not reached"))
        }
    }
}

/// How ending a poll releases its locks: every voter of the poll loses
/// exactly the locks of this poll id; every other account is untouched.
pub open spec fn unlocked_bank_ok(
    bank0: Seq<(Seq<char>, TokenManagerView)>,
    bank1: Seq<(Seq<char>, TokenManagerView)>,
    voters: Seq<Seq<char>>,
    poll_id: u64,
) -> bool {
    forall|k: Seq<char>| #[trigger]
        bank_lookup(bank1, k) == (match bank_lookup(bank0, k) {
            Some(tm) => Some(
                if spec_has_voted(voters, k) {
                    TokenManagerView { locked_tokens: without_poll(tm.locked_tokens, poll_id), ..tm }
                } else {
                    tm
                },
            ),
            None => None,
        })
}

/// What a completed `end_poll` did, given the staked weight the oracle
/// answered: the poll moves to its terminal status with the tally
/// recorded, every voter's lock for this poll is cleared, and the log
/// reports the outcome.
pub open spec fn end_poll_outcome(
    gov0: GovernanceView,
    gov1: GovernanceView,
    poll_id: u64,
    staked_weight: u128,
    resp: HandleResponse,
) -> bool {
    let p0 = gov0.polls[poll_id - 1];
    let yes = count_yes(p0.voter_info);
    let no = count_no(p0.voter_info);
    let passed = poll_passes(yes, no, p0.quorum_percentage, staked_weight as nat);
    let reason = rejection_reason(yes, no, p0.quorum_percentage, staked_weight as nat);
    &&& gov1.state == gov0.state
    &&& gov1.polls.len() == gov0.polls.len()
    &&& (forall|i: int|
        0 <= i < gov0.polls.len() && i != poll_id - 1 ==> #[trigger] gov1.polls[i]
            == gov0.polls[i])
    &&& gov1.polls[poll_id - 1] == (PollView {
        status: if passed {
            PollStatus::Passed
        } else {
            PollStatus::Rejected
        },
        yes_votes: yes as u128,
        no_votes: no as u128,
        ..p0
    })
    &&& unlocked_bank_ok(gov0.bank, gov1.bank, p0.voters, poll_id)
    &&& gov_inv(gov1)
    &&& resp.messages@.len() == 0
    &&& resp.log@.len() == 4
    &&& log_is(resp.log@[0], "action"@, "end_poll"@)
    &&& log_is(resp.log@[1], "poll_id"@, dec_of(poll_id as nat))
    &&& log_is(resp.log@[2], "rejected_reason"@, reason)
    &&& log_is(
        resp.log@[3],
        "passed"@,
        if passed {
            "true"@
        } else {
            "false"@
        },
    )
}

/// The full contract of `end_poll`: only the creator may end a poll
/// still in progress whose voting window has opened and expired; the
/// outcome then follows the tally and whatever staked weight the
/// oracle reported.
pub open spec fn end_poll_spec(
    gov0: GovernanceView,
    gov1: GovernanceView,
    env: Env,
    poll_id: u64,
    r: Result<HandleResponse, Error>,
) -> bool {
    let sender = env.message.sender@;
    let in_range = 1 <= poll_id <= gov0.polls.len();
    match r {
        Ok(resp) => {
            &&& in_range
            &&& gov0.polls[poll_id - 1].creator == sender
            &&& gov0.polls[poll_id - 1].status == PollStatus::InProgress
            &&& (gov0.polls[poll_id - 1].start_height matches Some(h) ==> h <= env.block.height)
            &&& (gov0.polls[poll_id - 1].end_height matches Some(h) ==> h <= env.block.height)
            &&& exists|sw: u128| end_poll_outcome(gov0, gov1, poll_id, sw, resp)
        },
        Err(e) => {
            &&& gov1 == gov0
            &&& (!in_range ==> e == Error::PollNotFound)
            &&& (in_range ==> {
                let p0 = gov0.polls[poll_id - 1];
                &&& (p0.creator == sender && p0.status == PollStatus::InProgress && (match
                    p0.start_height {
                    Some(h) => h <= env.block.height,
                    None => true,
                }) && (match p0.end_height {
                    Some(h) => h <= env.block.height,
                    None => true,
                }) ==> false)
                &&& (p0.creator != sender ==> e == Error::NotPollCreator)
                &&& (p0.creator == sender && p0.status != PollStatus::InProgress ==> e
                    == Error::PollNotInProgress)
                &&& (p0.creator == sender && p0.status == PollStatus::InProgress
                    && (p0.start_height matches Some(h) && h > env.block.height) ==> e
                    == Error::VotingNotStarted)
                &&& (p0.creator == sender && p0.status == PollStatus::InProgress
                    && (match p0.start_height {
                    Some(h) => h <= env.block.height,
                    None => true,
                }) && (p0.end_height matches Some(h) && h > env.block.height) ==> e
                    == Error::VotingNotExpired)
            })
        },
    }
}

/// The full contract of `end_poll_with_weight`: as `end_poll_spec`,
/// with the staked weight given instead of existentially quantified.
pub open spec fn end_poll_with_weight_spec(
    gov0: GovernanceView,
    gov1: GovernanceView,
    env: Env,
    staked_weight: u128,
    poll_id: u64,
    r: Result<HandleResponse, Error>,
) -> bool {
    let sender = env.message.sender@;
    let in_range = 1 <= poll_id <= gov0.polls.len();
    match r {
        Ok(resp) => {
            &&& in_range
            &&& gov0.polls[poll_id - 1].creator == sender
            &&& gov0.polls[poll_id - 1].status == PollStatus::InProgress
            &&& (gov0.polls[poll_id - 1].start_height matches Some(h) ==> h <= env.block.height)
            &&& (gov0.polls[poll_id - 1].end_height matches Some(h) ==> h <= env.block.height)
            &&& end_poll_outcome(gov0, gov1, poll_id, staked_weight, resp)
        },
        Err(e) => end_poll_spec(gov0, gov1, env, poll_id, r),
    }
}

/// Ends a poll against a given aggregate staked weight: validates the
/// caller and the voting window, tallies the cast votes, resolves
/// quorum and threshold, records the terminal status, and releases
/// every voter's lock for this poll. The whole outcome is an exact
/// function of the governance state and the given weight.
pub fn end_poll_with_weight(gov: &mut Governance, env: &Env, staked_weight: u128, poll_id: u64) -> (r: Result<
    HandleResponse,
    Error,
>)
    requires
        gov_inv(old(gov)@),
        1 <= poll_id <= old(gov)@.polls.len() ==> sum_weights(
            old(gov)@.polls[poll_id - 1].voter_info,
        ) <= u128::MAX,
    ensures
        end_poll_with_weight_spec(old(gov)@, final(gov)@, *env, staked_weight, poll_id, r),
{
    if poll_id == 0 || poll_id > gov.polls.len() as u64 {
        return Err(Error::PollNotFound);
    }
    let idx = (poll_id - 1) as usize;
    if !(gov.polls[idx].creator == env.message.sender) {
        return Err(Error::NotPollCreator);
    }
    if !(gov.polls[idx].status == PollStatus::InProgress) {
        return Err(Error::PollNotInProgress);
    }
    match gov.polls[idx].start_height {
        Some(h) => {
            if h > env.block.height {
                return Err(Error::VotingNotStarted);
            }
        },
        None => {},
    }
    match gov.polls[idx].end_height {
        Some(h) => {
            if h > env.block.height {
                return Err(Error::VotingNotExpired);
            }
        },
        None => {},
    }
    let ghost gov0 = gov@;
    let ghost polls0 = gov@.polls;
    let ghost bank0 = gov@.bank;
    let ghost p0 = gov@.polls[idx as int];
    let mut a_poll = gov.polls.remove(idx);
    let yes_label = String::from_str("yes");
    let n = a_poll.voter_info.len();
    let mut yes: u128 = 0;
    let mut no: u128 = 0;
    let mut i: usize = 0;
    proof {
        assert(p0.voter_info.take(0) =~= Seq::<VoterView>::empty());
        lemma_counts_split(p0.voter_info);
    }
    while i < n
        invariant
            yes_label@ == "yes"@,
            n == a_poll.voter_info@.len(),
            a_poll@.voter_info == p0.voter_info,
            sum_weights(p0.voter_info) <= u128::MAX,
            i <= n,
            yes as nat == count_yes(p0.voter_info.take(i as int)),
            no as nat == count_no(p0.voter_info.take(i as int)),
            yes as nat + no as nat == sum_weights(p0.voter_info.take(i as int)),
        decreases n - i,
    {
        proof {
            assert(p0.voter_info.take(i as int + 1).drop_last() =~= p0.voter_info.take(i as int));
            assert(p0.voter_info.take(i as int + 1).last() == p0.voter_info[i as int]);
            lemma_counts_split(p0.voter_info.take(i as int + 1));
            lemma_sum_weights_prefix(p0.voter_info, i as int + 1);
        }
        let v = &a_poll.voter_info[i];
        proof {
            assert(v@ == p0.voter_info[i as int]);
        }
        if v.vote == yes_label {
            proof {
                reveal_strlit("yes");
                assert(is_yes_vote(p0.voter_info[i as int].vote));
            }
            yes = yes + v.weight;
        } else {
            proof {
                reveal_strlit("yes");
                assert(!is_yes_vote(p0.voter_info[i as int].vote));
            }
            no = no + v.weight;
        }
        i = i + 1;
    }
    proof {
        assert(p0.voter_info.take(n as int) =~= p0.voter_info);
    }
    let (passed, reason) = resolve_poll(yes, no, a_poll.quorum_percentage, staked_weight);
    a_poll.status = if passed {
        PollStatus::Passed
    } else {
        PollStatus::Rejected
    };
    a_poll.yes_votes = yes;
    a_poll.no_votes = no;
    // release every voter's lock for this poll
    let vn = a_poll.voters.len();
    let mut vi: usize = 0;
    proof {
        assert(p0.voters.take(0) =~= Seq::<Seq<char>>::empty());
        assert(voters_unique(p0.voters));
        assert(gov@.polls =~= polls0.remove(idx as int));
    }
    while vi < vn
        invariant
            0 <= idx < polls0.len(),
            idx == poll_id - 1,
            gov@.state == gov0.state,
            gov@.polls == polls0.remove(idx as int),
            vn == a_poll.voters@.len(),
            a_poll@.voters == p0.voters,
            voters_unique(p0.voters),
            vi <= vn,
            bank_keys_unique(bank_view(gov.bank@)),
            sum_bank(bank_view(gov.bank@)) == sum_bank(bank0),
            forall|k: Seq<char>| #[trigger]
                bank_lookup(bank_view(gov.bank@), k) == (match bank_lookup(bank0, k) {
                    Some(tm) => Some(
                        if spec_has_voted(p0.voters.take(vi as int), k) {
                            TokenManagerView {
                                locked_tokens: without_poll(tm.locked_tokens, poll_id),
                                ..tm
                            }
                        } else {
                            tm
                        },
                    ),
                    None => None,
                }),
        decreases vn - vi,
    {
        let ghost bank_pre = bank_view(gov.bank@);
        let voter = &a_poll.voters[vi];
        let ghost vk = p0.voters[vi as int];
        proof {
            assert(voter@ == vk);
            assert(forall|j: int| 0 <= j < vi ==> p0.voters.take(vi as int)[j] != vk);
            assert(!spec_has_voted(p0.voters.take(vi as int), vk));
        }
        match bank_find(&gov.bank, voter) {
            None => {
                proof {
                    assert(bank_lookup(bank0, vk) is None);
                }
            },
            Some(bi) => {
                let entry = gov.bank.remove(bi);
                let (ks, mut tm) = entry;
                let ghost locked0 = tm@.locked_tokens;
                let ln = tm.locked_tokens.len();
                let mut new_locked: Vec<(u64, u128)> = Vec::new();
                let mut j: usize = 0;
                proof {
                    assert(locked0.take(0) =~= Seq::<(u64, u128)>::empty());
                    assert(new_locked@ =~= without_poll(locked0.take(0), poll_id));
                }
                while j < ln
                    invariant
                        ln == tm.locked_tokens@.len(),
                        tm.locked_tokens@ == locked0,
                        j <= ln,
                        new_locked@ == without_poll(locked0.take(j as int), poll_id),
                    decreases ln - j,
                {
                    proof {
                        assert(locked0.take(j as int + 1).drop_last() =~= locked0.take(j as int));
                        assert(locked0.take(j as int + 1).last() == locked0[j as int]);
                    }
                    let e = tm.locked_tokens[j];
                    if e.0 != poll_id {
                        new_locked.push(e);
                    }
                    j = j + 1;
                }
                proof {
                    assert(locked0.take(ln as int) =~= locked0);
                }
                tm.locked_tokens = new_locked;
                gov.bank.insert(bi, (ks, tm));
                proof {
                    assert(bank_view(gov.bank@) =~= bank_pre.update(
                        bi as int,
                        (vk, gov.bank@[bi as int].1@),
                    ));
                    lemma_bank_lookup_update(bank_pre, bi as int, (vk, gov.bank@[bi as int].1@));
                    lemma_sum_bank_update(bank_pre, bi as int, (vk, gov.bank@[bi as int].1@));
                }
            },
        }
        proof {
            assert(p0.voters.take(vi as int + 1) =~= p0.voters.take(vi as int).push(vk));
            assert forall|k: Seq<char>| #[trigger]
                bank_lookup(bank_view(gov.bank@), k) == (match bank_lookup(bank0, k) {
                    Some(tm) => Some(
                        if spec_has_voted(p0.voters.take(vi as int + 1), k) {
                            TokenManagerView {
                                locked_tokens: without_poll(tm.locked_tokens, poll_id),
                                ..tm
                            }
                        } else {
                            tm
                        },
                    ),
                    None => None,
                }) by {
                if k == vk {
                    assert(spec_has_voted(p0.voters.take(vi as int + 1), vk)) by {
                        assert(p0.voters.take(vi as int + 1).last() == vk);
                    };
                } else {
                    assert(spec_has_voted(p0.voters.take(vi as int + 1), k) == spec_has_voted(
                        p0.voters.take(vi as int),
                        k,
                    )) by {
                        if spec_has_voted(p0.voters.take(vi as int + 1), k) {
                            let w = choose|w: int|
                                0 <= w < p0.voters.take(vi as int + 1).len() && #[trigger] p0.voters.take(
                                    vi as int + 1,
                                )[w] == k;
                            assert(w < vi as int);
                            assert(p0.voters.take(vi as int)[w] == k);
                        }
                    };
                }
            }
        }
        vi = vi + 1;
    }
    proof {
        assert(p0.voters.take(vn as int) =~= p0.voters);
    }
    let ghost x_mid = gov.polls@;
    proof {
        assert(x_mid.map_values(|p: Poll| p@) == polls0.remove(idx as int));
    }
    gov.polls.insert(idx, a_poll);
    proof {
        assert forall|j: int| 0 <= j < polls0.len() implies #[trigger] gov@.polls[j]
            == polls0.update(idx as int, gov.polls@[idx as int]@)[j] by {
            assert(gov@.polls[j] == gov.polls@[j]@);
            if j < idx as int {
                assert(gov.polls@[j] == x_mid[j]);
                assert(x_mid[j]@ == x_mid.map_values(|p: Poll| p@)[j]);
                assert(polls0.remove(idx as int)[j] == polls0[j]);
            } else if j > idx as int {
                assert(gov.polls@[j] == x_mid[j - 1]);
                assert(x_mid[j - 1]@ == x_mid.map_values(|p: Poll| p@)[j - 1]);
                assert(polls0.remove(idx as int)[j - 1] == polls0[j]);
            }
        }
        assert(gov@.polls =~= polls0.update(idx as int, gov.polls@[idx as int]@));
        assert(gov.polls@[idx as int]@.voters =~= p0.voters);
        assert(gov.polls@[idx as int]@.voter_info =~= p0.voter_info);
        assert(gov@.polls[idx as int] == (PollView {
            status: if passed {
                PollStatus::Passed
            } else {
                PollStatus::Rejected
            },
            yes_votes: yes,
            no_votes: no,
            ..p0
        }));
        assert forall|p: int| 0 <= p < gov@.polls.len() implies voters_unique(
            #[trigger] gov@.polls[p].voters,
        ) by {
            if p != idx as int {
                assert(gov@.polls[p] == polls0[p]);
            }
        }
    }
    let mut lg: Vec<LogAttribute> = Vec::new();
    lg.push(log("action", "end_poll"));
    let id_str = u64_to_dec_string(poll_id);
    lg.push(log("poll_id", id_str.as_str()));
    lg.push(log("rejected_reason", reason.as_str()));
    lg.push(
        log(
            "passed",
            if passed {
                "true"
            } else {
                "false"
            },
        ),
    );
    let resp = HandleResponse { messages: Vec::new(), log: lg };
    proof {
        assert(gov0.polls[poll_id - 1] == p0);
        assert(end_poll_outcome(gov0, gov@, poll_id, staked_weight, resp));
    }
    Ok(resp)
}

/// Ends a poll, taking the aggregate staked weight from the oracle and
/// resolving the outcome against whatever it answered.
pub fn end_poll<O: Oracle>(gov: &mut Governance, env: &Env, oracle: &O, poll_id: u64) -> (r: Result<
    HandleResponse,
    Error,
>)
    requires
        gov_inv(old(gov)@),
        1 <= poll_id <= old(gov)@.polls.len() ==> sum_weights(
            old(gov)@.polls[poll_id - 1].voter_info,
        ) <= u128::MAX,
    ensures
        end_poll_spec(old(gov)@, final(gov)@, *env, poll_id, r),
{
    let staked_weight = oracle.balance(env.contract.address.as_str(), gov.state.denom.as_str());
    let r = end_poll_with_weight(gov, env, staked_weight, poll_id);
    proof {
        if r is Ok {
            assert(end_poll_outcome(old(gov)@, gov@, poll_id, staked_weight, r->Ok_0));
        }
    }
    r
}

/// Law: conservation of stakes. In a well-formed governance state the
/// aggregate staked-token counter equals the sum of all stake
/// balances; every handler of this module both requires and
/// re-establishes well-formedness.
pub proof fn lemma_stake_conservation(gov: GovernanceView)
    requires
        gov_inv(gov),
    ensures
        gov.state.staked_tokens as nat == sum_bank(gov.bank),
{
}

/// Law: no double voting. A voter who already appears in a poll's
/// voter list cannot cast a second vote on the same poll id: the cast
/// is rejected and the state is untouched.
pub proof fn lemma_no_double_voting(
    gov0: GovernanceView,
    gov1: GovernanceView,
    env: Env,
    poll_id: u64,
    vote: Seq<char>,
    weight: u128,
    r: Result<HandleResponse, Error>,
)
    requires
        cast_vote_spec(gov0, gov1, env, poll_id, vote, weight, r),
        1 <= poll_id <= gov0.polls.len(),
        spec_has_voted(gov0.polls[poll_id - 1].voters, env.message.sender@),
    ensures
        r is Err,
        gov1 == gov0,
        gov0.polls[poll_id - 1].status == PollStatus::InProgress ==> r == Err::<
            HandleResponse,
            Error,
        >(Error::AlreadyVoted),
{
}

/// Law: withdrawal bound. A withdrawal never succeeds if the sender's
/// largest weight locked in open polls plus the requested amount would
/// exceed the staked balance.
pub proof fn lemma_withdrawal_bound(
    gov0: GovernanceView,
    gov1: GovernanceView,
    env: Env,
    amount: Option<u128>,
    r: Result<HandleResponse, Error>,
)
    requires
        withdraw_spec(gov0, gov1, env, amount, r),
        r is Ok,
    ensures
        bank_lookup(gov0.bank, env.message.sender@) matches Some(tm0) && max_locked(
            tm0.locked_tokens,
        ) + (match amount {
            Some(a) => a as nat,
            None => tm0.token_balance as nat,
        }) <= tm0.token_balance as nat,
{
}

/// Answers a configuration, stake or poll query.
pub fn query(gov: &Governance, msg: QueryMsg) -> (r: Result<QueryAnswer, Error>)
    ensures
        match msg {
            QueryMsg::Config {} => r matches Ok(QueryAnswer::Config(s)) && s@ == gov@.state,
            QueryMsg::TokenStake { address } => r matches Ok(QueryAnswer::TokenStake(t))
                && t.token_balance as nat == stake_balance_of(gov@.bank, address@),
            QueryMsg::Poll { poll_id } => match r {
                Ok(QueryAnswer::Poll(p)) => {
                    &&& 1 <= poll_id <= gov@.polls.len()
                    &&& p.creator@ == gov@.polls[poll_id - 1].creator
                    &&& p.status == gov@.polls[poll_id - 1].status
                    &&& p.quorum_percentage == gov@.polls[poll_id - 1].quorum_percentage
                    &&& p.end_height == gov@.polls[poll_id - 1].end_height
                    &&& p.start_height == gov@.polls[poll_id - 1].start_height
                    &&& p.description@ == gov@.polls[poll_id - 1].description
                },
                Ok(_) => false,
                Err(e) => !(1 <= poll_id <= gov@.polls.len()) && e == Error::PollNotFound,
            },
        },
{
    match msg {
        QueryMsg::Config {} => {
            let s = State {
                denom: gov.state.denom.clone(),
                owner: gov.state.owner.clone(),
                poll_count: gov.state.poll_count,
                staked_tokens: gov.state.staked_tokens,
            };
            Ok(QueryAnswer::Config(s))
        },
        QueryMsg::TokenStake { address } => {
            let token_balance = match bank_find(&gov.bank, &address) {
                Some(i) => gov.bank[i].1.token_balance,
                None => 0,
            };
            Ok(QueryAnswer::TokenStake(TokenStakeResponse { token_balance }))
        },
        QueryMsg::Poll { poll_id } => {
            if poll_id == 0 || poll_id > gov.polls.len() as u64 {
                return Err(Error::PollNotFound);
            }
            let idx = (poll_id - 1) as usize;
            let p = &gov.polls[idx];
            Ok(
                QueryAnswer::Poll(
                    PollResponse {
                        creator: p.creator.clone(),
                        status: p.status,
                        quorum_percentage: p.quorum_percentage,
                        end_height: p.end_height,
                        start_height: p.start_height,
                        description: p.description.clone(),
                    },
                ),
            )
        },
    }
}

/// Routes an inbound governance message to its handler. The
/// per-message contracts are the `*_spec` functions; every path
/// preserves the governance invariant, stake conservation included.
pub fn handle<O: Oracle>(gov: &mut Governance, env: &Env, oracle: &O, msg: HandleMsg) -> (r: Result<
    HandleResponse,
    Error,
>)
    requires
        gov_inv(old(gov)@),
        match msg {
            HandleMsg::StakeVotingTokens {} => sent_sufficient(
                env.message.sent_funds@,
                old(gov)@.state.denom,
                MIN_STAKE_AMOUNT as nat,
            ) ==> old(gov)@.state.staked_tokens as nat + first_match_amount(
                env.message.sent_funds@,
                old(gov)@.state.denom,
            ) <= u128::MAX,
            HandleMsg::CreatePoll { .. } => old(gov)@.state.poll_count < u64::MAX,
            HandleMsg::EndPoll { poll_id } => 1 <= poll_id <= old(gov)@.polls.len()
                ==> sum_weights(old(gov)@.polls[poll_id - 1].voter_info) <= u128::MAX,
            _ => true,
        },
    ensures
        match msg {
            HandleMsg::StakeVotingTokens {} => stake_spec(old(gov)@, final(gov)@, *env, r),
            HandleMsg::WithdrawVotingTokens { amount } => withdraw_spec(
                old(gov)@,
                final(gov)@,
                *env,
                amount,
                r,
            ),
            HandleMsg::CastVote { poll_id, encrypted_vote, weight } => cast_vote_spec(
                old(gov)@,
                final(gov)@,
                *env,
                poll_id,
                encrypted_vote@,
                weight,
                r,
            ),
            HandleMsg::EndPoll { poll_id } => end_poll_spec(
                old(gov)@,
                final(gov)@,
                *env,
                poll_id,
                r,
            ),
            HandleMsg::CreatePoll { quorum_percentage, description, start_height, end_height } =>
                create_poll_spec(
                old(gov)@,
                final(gov)@,
                *env,
                match quorum_percentage {
                    Some(q) => q,
                    None => 0,
                },
                description@,
                start_height,
                end_height,
                r,
            ),
        },
{
    match msg {
        HandleMsg::StakeVotingTokens {} => stake_voting_tokens(gov, env),
        HandleMsg::WithdrawVotingTokens { amount } => withdraw_voting_tokens(gov, env, amount),
        HandleMsg::CastVote { poll_id, encrypted_vote, weight } => cast_vote(
            gov,
            env,
            poll_id,
            encrypted_vote,
            weight,
        ),
        HandleMsg::EndPoll { poll_id } => end_poll(gov, env, oracle, poll_id),
        HandleMsg::CreatePoll { quorum_percentage, description, start_height, end_height } => {
            let qp = match quorum_percentage {
                Some(q) => q,
                None => 0,
            };
            create_poll(gov, env, qp, description, start_height, end_height)
        },
    }
}

/// Creates a governance instance for one staking denomination, owned
/// by the caller, with no polls and no stakes.
pub fn init(env: &Env, msg: InitMsg) -> (r: (Governance, InitResponse))
    ensures
        r.0@.state.denom == msg.denom@,
        r.0@.state.owner == env.message.sender@,
        r.0@.state.poll_count == 0,
        r.0@.state.staked_tokens == 0,
        r.0@.polls.len() == 0,
        r.0@.bank.len() == 0,
        gov_inv(r.0@),
        r.1.messages@.len() == 0,
        r.1.log@.len() == 0,
{
    let state = State {
        denom: msg.denom,
        owner: env.message.sender.clone(),
        poll_count: 0,
        staked_tokens: 0,
    };
    let gov = Governance { state, polls: Vec::new(), bank: Vec::new() };
    proof {
        assert(gov@.polls =~= Seq::<PollView>::empty());
        assert(gov@.bank =~= Seq::<(Seq<char>, TokenManagerView)>::empty());
    }
    (gov, InitResponse { messages: Vec::new(), log: Vec::new() })
}

} // verus!
