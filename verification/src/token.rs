//! The token ledger engine: balances, allowances, total supply and the
//! minter identity, stored as namespaced 16-byte big-endian counters.
//!
//! The central invariant is conservation: the stored total supply always
//! equals the sum of all stored balances. Every handler requires it of
//! the ledger it receives and ensures it of the ledger it leaves behind.

use vstd::prelude::*;

verus! {

use cosmwasm_std::MemoryStorage;
use crate::codec::be_bytes;
use crate::codec::dec_of;
use crate::codec::dec_val;
use crate::codec::valid_amount;
use crate::codec::lemma_be_bytes_len;
use crate::codec::lemma_be_val_of_be_bytes;
use crate::codec::lemma_pow256_16;
use crate::codec::parse_u128;
use crate::codec::u128_to_dec_string;
use crate::error::Error;
use crate::storage::kv_of;
use crate::storage::kv_new;
use crate::storage::stored_ok;
use crate::storage::stored_val;
use crate::storage::balance_key;
use crate::storage::allowance_key;
use crate::storage::supply_key;
use crate::storage::name_key;
use crate::storage::symbol_key;
use crate::storage::decimals_key;
use crate::storage::ns_balances;
use crate::storage::ns_allowances;
use crate::storage::ns_config;
use crate::storage::namespaced_key;
use crate::storage::lemma_namespaced_key_injective;
use crate::storage::lemma_utf8_injective;
use crate::storage::balance_key_vec;
use crate::storage::allowance_key_vec;
use crate::storage::supply_key_vec;
use crate::storage::name_key_vec;
use crate::storage::symbol_key_vec;
use crate::storage::decimals_key_vec;
use crate::storage::read_u128;
use crate::storage::write_u128;
use crate::types::Env;
use crate::types::HandleResponse;
use crate::types::InitResponse;
use crate::types::LogAttribute;
use crate::types::log;
use crate::types::log_is;
use vstd::utf8::encode_utf8;

/// The stored key-value contents of a ledger.
pub type Kv = Map<Seq<u8>, Seq<u8>>;

/// Immutable token metadata, validated once at initialization.
#[derive(Debug, Clone, PartialEq, Eq)]
pub struct Constants {
    pub name: String,
    pub symbol: String,
    pub decimals: u8,
}

/// The ledger's configuration record, passed by value through each
/// handler: the one account allowed to mint, and (ghost) the accounts
/// that may hold a balance entry.
pub struct State {
    pub minter: String,
    pub accounts: Ghost<Seq<Seq<char>>>,
}

/// One opening balance of the ledger.
#[derive(Debug, Clone)]
pub struct InitialBalance {
    pub address: String,
    pub amount: String,
}

/// What ledger initialization takes.
#[derive(Debug, Clone)]
pub struct InitMsg {
    pub name: String,
    pub symbol: String,
    pub decimals: u8,
    pub initial_balances: Vec<InitialBalance>,
}

/// The ledger's inbound transaction messages. Amounts travel as
/// decimal strings.
#[derive(Debug, Clone)]
pub enum HandleMsg {
    Approve { spender: String, amount: String },
    Transfer { recipient: String, amount: String },
    TransferFrom { owner: String, recipient: String, amount: String },
    Burn { amount: String },
    Mint { recipient: String, amount: String },
}

/// The ledger's read-only queries.
#[derive(Debug, Clone)]
pub enum QueryMsg {
    Balance { address: String },
    Allowance { owner: String, spender: String },
}

/// The answer to a balance query, as a decimal string.
#[derive(Debug, Clone, PartialEq, Eq)]
pub struct BalanceResponse {
    pub balance: String,
}

/// The answer to an allowance query, as a decimal string.
#[derive(Debug, Clone, PartialEq, Eq)]
pub struct AllowanceResponse {
    pub allowance: String,
}

/// What a ledger query returns.
#[derive(Debug, Clone, PartialEq, Eq)]
pub enum QueryAnswer {
    Balance(BalanceResponse),
    Allowance(AllowanceResponse),
}

/// The balance of an account; an absent entry reads as zero.
pub open spec fn balance_of(kv: Kv, addr: Seq<char>) -> nat {
    stored_val(kv, balance_key(addr))
}

/// Whether the account's balance entry can be read.
pub open spec fn balance_ok(kv: Kv, addr: Seq<char>) -> bool {
    stored_ok(kv, balance_key(addr))
}

/// The allowance an owner has granted a spender; absent reads as zero.
pub open spec fn allowance_of(kv: Kv, owner: Seq<char>, spender: Seq<char>) -> nat {
    stored_val(kv, allowance_key(owner, spender))
}

/// Whether the allowance entry can be read.
pub open spec fn allowance_ok(kv: Kv, owner: Seq<char>, spender: Seq<char>) -> bool {
    stored_ok(kv, allowance_key(owner, spender))
}

/// The stored total supply; absent reads as zero.
pub open spec fn supply_of(kv: Kv) -> nat {
    stored_val(kv, supply_key())
}

/// Whether the supply entry can be read.
pub open spec fn supply_ok(kv: Kv) -> bool {
    stored_ok(kv, supply_key())
}

/// The sum of the balances of the listed accounts.
pub open spec fn sum_balances(kv: Kv, accounts: Seq<Seq<char>>) -> nat
    decreases accounts.len(),
{
    if accounts.len() == 0 {
        0
    } else {
        sum_balances(kv, accounts.drop_last()) + balance_of(kv, accounts.last())
    }
}

/// No account is listed twice.
pub open spec fn no_dup_accounts(accounts: Seq<Seq<char>>) -> bool {
    forall|i: int, j: int| 0 <= i < j < accounts.len() ==> accounts[i] != accounts[j]
}

/// Every balance entry is stored in exactly sixteen bytes.
pub open spec fn balances_readable(kv: Kv) -> bool {
    forall|a: Seq<char>| #[trigger] balance_ok(kv, a)
}

/// Every allowance entry is stored in exactly sixteen bytes.
pub open spec fn allowances_readable(kv: Kv) -> bool {
    forall|o: Seq<char>, s: Seq<char>| #[trigger] allowance_ok(kv, o, s)
}

/// Every account with a non-zero balance is listed.
pub open spec fn accounts_cover(kv: Kv, accounts: Seq<Seq<char>>) -> bool {
    forall|a: Seq<char>| #[trigger] balance_of(kv, a) != 0 ==> accounts.contains(a)
}

/// Well-formedness of a stored ledger against its account list. The
/// last conjunct is conservation: the total supply equals the sum of
/// all balances.
pub open spec fn ledger_inv(kv: Kv, accounts: Seq<Seq<char>>) -> bool {
    &&& supply_ok(kv)
    &&& supply_of(kv) <= u128::MAX
    &&& balances_readable(kv)
    &&& allowances_readable(kv)
    &&& no_dup_accounts(accounts)
    &&& accounts_cover(kv, accounts)
    &&& sum_balances(kv, accounts) == supply_of(kv)
}

/// The account list once `a` is known to hold an entry.
pub open spec fn with_account(accounts: Seq<Seq<char>>, a: Seq<char>) -> Seq<Seq<char>> {
    if accounts.contains(a) {
        accounts
    } else {
        accounts.push(a)
    }
}

/// A balance key determines its account.
pub proof fn lemma_balance_key_injective(a: Seq<char>, b: Seq<char>)
    requires
        balance_key(a) == balance_key(b),
    ensures
        a == b,
{
    lemma_namespaced_key_injective(ns_balances(), encode_utf8(a), ns_balances(), encode_utf8(b));
    lemma_utf8_injective(a, b);
}

/// A key of any other namespace never collides with a balance key.
pub proof fn lemma_balance_key_other_ns(ns: Seq<u8>, k: Seq<u8>, a: Seq<char>)
    requires
        ns.len() < 65536,
        ns != ns_balances(),
    ensures
        namespaced_key(ns, k) != balance_key(a),
{
    if namespaced_key(ns, k) == balance_key(a) {
        lemma_namespaced_key_injective(ns, k, ns_balances(), encode_utf8(a));
    }
}

/// An allowance key determines its owner and spender.
pub proof fn lemma_allowance_key_injective(
    o1: Seq<char>,
    s1: Seq<char>,
    o2: Seq<char>,
    s2: Seq<char>,
)
    requires
        encode_utf8(o1).len() < 65536,
        encode_utf8(o2).len() < 65536,
        allowance_key(o1, s1) == allowance_key(o2, s2),
    ensures
        o1 == o2,
        s1 == s2,
{
    assert(allowance_key(o1, s1) == namespaced_key(
        ns_allowances(),
        namespaced_key(encode_utf8(o1), encode_utf8(s1)),
    ));
    assert(allowance_key(o2, s2) == namespaced_key(
        ns_allowances(),
        namespaced_key(encode_utf8(o2), encode_utf8(s2)),
    ));
    lemma_namespaced_key_injective(
        ns_allowances(),
        namespaced_key(encode_utf8(o1), encode_utf8(s1)),
        ns_allowances(),
        namespaced_key(encode_utf8(o2), encode_utf8(s2)),
    );
    lemma_namespaced_key_injective(encode_utf8(o1), encode_utf8(s1), encode_utf8(o2), encode_utf8(s2));
    lemma_utf8_injective(o1, o2);
    lemma_utf8_injective(s1, s2);
}

/// Accounts whose balances agree under two ledgers sum the same.
proof fn lemma_sum_congruent(kv1: Kv, kv2: Kv, accounts: Seq<Seq<char>>)
    requires
        forall|i: int|
            0 <= i < accounts.len() ==> balance_of(kv2, #[trigger] accounts[i]) == balance_of(
                kv1,
                accounts[i],
            ),
    ensures
        sum_balances(kv2, accounts) == sum_balances(kv1, accounts),
    decreases accounts.len(),
{
    if accounts.len() > 0 {
        lemma_sum_congruent(kv1, kv2, accounts.drop_last());
    }
}

/// Changing one listed account's balance moves the sum by exactly the
/// difference.
proof fn lemma_sum_update(kv1: Kv, kv2: Kv, accounts: Seq<Seq<char>>, x: Seq<char>)
    requires
        no_dup_accounts(accounts),
        accounts.contains(x),
        forall|a: Seq<char>| a != x ==> #[trigger] balance_of(kv2, a) == balance_of(kv1, a),
    ensures
        sum_balances(kv2, accounts) + balance_of(kv1, x) == sum_balances(kv1, accounts)
            + balance_of(kv2, x),
    decreases accounts.len(),
{
    let rest = accounts.drop_last();
    if accounts.last() == x {
        assert(forall|i: int|
            0 <= i < rest.len() ==> balance_of(kv2, #[trigger] rest[i]) == balance_of(
                kv1,
                rest[i],
            ));
        lemma_sum_congruent(kv1, kv2, rest);
    } else {
        let i = choose|i: int| 0 <= i < accounts.len() && accounts[i] == x;
        assert(rest[i] == x);
        assert(rest.contains(x));
        lemma_sum_update(kv1, kv2, rest, x);
    }
}

/// One listed account's balance never exceeds the sum.
proof fn lemma_one_le_sum(kv: Kv, accounts: Seq<Seq<char>>, x: Seq<char>)
    requires
        accounts.contains(x),
    ensures
        balance_of(kv, x) <= sum_balances(kv, accounts),
    decreases accounts.len(),
{
    let rest = accounts.drop_last();
    if accounts.last() != x {
        let i = choose|i: int| 0 <= i < accounts.len() && accounts[i] == x;
        assert(rest[i] == x);
        assert(rest.contains(x));
        lemma_one_le_sum(kv, rest, x);
    }
}

/// Two distinct listed accounts' balances never exceed the sum together.
proof fn lemma_two_le_sum(kv: Kv, accounts: Seq<Seq<char>>, x: Seq<char>, y: Seq<char>)
    requires
        no_dup_accounts(accounts),
        accounts.contains(x),
        accounts.contains(y),
        x != y,
    ensures
        balance_of(kv, x) + balance_of(kv, y) <= sum_balances(kv, accounts),
    decreases accounts.len(),
{
    let rest = accounts.drop_last();
    if accounts.last() == x {
        let i = choose|i: int| 0 <= i < accounts.len() && accounts[i] == y;
        assert(rest[i] == y);
        assert(rest.contains(y));
        lemma_one_le_sum(kv, rest, y);
    } else if accounts.last() == y {
        let i = choose|i: int| 0 <= i < accounts.len() && accounts[i] == x;
        assert(rest[i] == x);
        assert(rest.contains(x));
        lemma_one_le_sum(kv, rest, x);
    } else {
        let i = choose|i: int| 0 <= i < accounts.len() && accounts[i] == x;
        assert(rest[i] == x);
        let j = choose|j: int| 0 <= j < accounts.len() && accounts[j] == y;
        assert(rest[j] == y);
        lemma_two_le_sum(kv, rest, x, y);
    }
}

/// How one balance write moves the stored ledger: the written account
/// reads the new value, every other entry is untouched, the sum moves
/// by exactly the difference, and the account list stays duplicate-free
/// and covering.
proof fn lemma_balance_write(kv: Kv, accounts: Seq<Seq<char>>, x: Seq<char>, v: u128)
    requires
        balances_readable(kv),
        no_dup_accounts(accounts),
        accounts_cover(kv, accounts),
    ensures
        ({
            let kv2 = kv.insert(balance_key(x), be_bytes(v as nat, 16));
            let acc2 = with_account(accounts, x);
            &&& balances_readable(kv2)
            &&& no_dup_accounts(acc2)
            &&& accounts_cover(kv2, acc2)
            &&& balance_of(kv2, x) == v as nat
            &&& (forall|a: Seq<char>|
                a != x ==> #[trigger] balance_of(kv2, a) == balance_of(kv, a))
            &&& sum_balances(kv2, acc2) + balance_of(kv, x) == sum_balances(kv, accounts) + (
            v as nat)
            &&& stored_val(kv2, supply_key()) == stored_val(kv, supply_key())
            &&& stored_ok(kv2, supply_key()) == stored_ok(kv, supply_key())
            &&& (forall|o: Seq<char>, s: Seq<char>| #[trigger]
                allowance_of(kv2, o, s) == allowance_of(kv, o, s))
            &&& (forall|o: Seq<char>, s: Seq<char>| #[trigger]
                allowance_ok(kv2, o, s) == allowance_ok(kv, o, s))
        }),
{
    let kv2 = kv.insert(balance_key(x), be_bytes(v as nat, 16));
    let acc2 = with_account(accounts, x);
    lemma_be_bytes_len(v as nat, 16);
    lemma_pow256_16();
    lemma_be_val_of_be_bytes(v as nat, 16);
    assert forall|a: Seq<char>| a != x implies #[trigger] balance_of(kv2, a) == balance_of(
        kv,
        a,
    ) by {
        if balance_key(a) == balance_key(x) {
            lemma_balance_key_injective(a, x);
        }
    }
    assert forall|a: Seq<char>| #[trigger] balance_ok(kv2, a) by {
        if balance_key(a) == balance_key(x) {
        } else {
            assert(balance_ok(kv, a));
        }
    }
    assert(balance_of(kv2, x) == v as nat);
    assert forall|a: Seq<char>| #[trigger] balance_of(kv2, a) != 0 implies acc2.contains(a) by {
        if a == x {
            if !accounts.contains(x) {
                assert(acc2.last() == x);
                assert(acc2.contains(x));
            }
        } else {
            assert(balance_of(kv, a) != 0);
            assert(accounts.contains(a));
            if !accounts.contains(x) {
                let i = choose|i: int| 0 <= i < accounts.len() && accounts[i] == a;
                assert(acc2[i] == a);
                assert(acc2.contains(a));
            }
        }
    }
    if accounts.contains(x) {
        lemma_sum_update(kv, kv2, accounts, x);
    } else {
        assert(balance_of(kv, x) == 0);
        assert(acc2.drop_last() =~= accounts);
        assert(acc2.last() == x);
        assert(forall|i: int|
            0 <= i < accounts.len() ==> #[trigger] accounts[i] != x);
        assert(forall|i: int|
            0 <= i < accounts.len() ==> balance_of(kv2, #[trigger] accounts[i]) == balance_of(
                kv,
                accounts[i],
            ));
        lemma_sum_congruent(kv, kv2, accounts);
        assert(sum_balances(kv2, acc2) == sum_balances(kv2, accounts) + balance_of(kv2, x));
    }
    assert(supply_key() != balance_key(x)) by {
        assert(ns_config().len() != ns_balances().len());
        lemma_balance_key_other_ns(ns_config(), crate::storage::key_total_supply(), x);
    };
    assert forall|o: Seq<char>, s: Seq<char>| #[trigger]
        allowance_of(kv2, o, s) == allowance_of(kv, o, s) by {
        assert(allowance_key(o, s) != balance_key(x)) by {
            assert(ns_allowances().len() != ns_balances().len());
            lemma_balance_key_other_ns(
                ns_allowances(),
                namespaced_key(encode_utf8(o), encode_utf8(s)),
                x,
            );
        };
    }
    assert forall|o: Seq<char>, s: Seq<char>| #[trigger]
        allowance_ok(kv2, o, s) == allowance_ok(kv, o, s) by {
        assert(allowance_key(o, s) != balance_key(x)) by {
            assert(ns_allowances().len() != ns_balances().len());
            lemma_balance_key_other_ns(
                ns_allowances(),
                namespaced_key(encode_utf8(o), encode_utf8(s)),
                x,
            );
        };
    }
}

/// A write under a key that is no balance key leaves every balance,
/// their readability, their coverage and their sum untouched.
proof fn lemma_nonbalance_write(kv: Kv, accounts: Seq<Seq<char>>, key: Seq<u8>, value: Seq<u8>)
    requires
        forall|a: Seq<char>| key != #[trigger] balance_key(a),
        forall|o: Seq<char>, s: Seq<char>| key != #[trigger] allowance_key(o, s),
        balances_readable(kv),
        accounts_cover(kv, accounts),
    ensures
        balances_readable(kv.insert(key, value)),
        accounts_cover(kv.insert(key, value), accounts),
        forall|a: Seq<char>| #[trigger] balance_of(kv.insert(key, value), a) == balance_of(kv, a),
        sum_balances(kv.insert(key, value), accounts) == sum_balances(kv, accounts),
        forall|o: Seq<char>, s: Seq<char>| #[trigger]
            allowance_of(kv.insert(key, value), o, s) == allowance_of(kv, o, s),
        forall|o: Seq<char>, s: Seq<char>| #[trigger]
            allowance_ok(kv.insert(key, value), o, s) == allowance_ok(kv, o, s),
{
    let kv2 = kv.insert(key, value);
    assert forall|o: Seq<char>, s: Seq<char>| #[trigger]
        allowance_of(kv2, o, s) == allowance_of(kv, o, s) by {
        assert(key != allowance_key(o, s));
    }
    assert forall|o: Seq<char>, s: Seq<char>| #[trigger]
        allowance_ok(kv2, o, s) == allowance_ok(kv, o, s) by {
        assert(key != allowance_key(o, s));
    }
    assert forall|a: Seq<char>| #[trigger] balance_of(kv2, a) == balance_of(kv, a) by {
        assert(key != balance_key(a));
    }
    assert forall|a: Seq<char>| #[trigger] balance_ok(kv2, a) by {
        assert(key != balance_key(a));
        assert(balance_ok(kv, a));
    }
    assert forall|a: Seq<char>| #[trigger] balance_of(kv2, a) != 0 implies accounts.contains(
        a,
    ) by {
        assert(balance_of(kv, a) != 0);
    }
    assert(forall|i: int|
        0 <= i < accounts.len() ==> balance_of(kv2, #[trigger] accounts[i]) == balance_of(
            kv,
            accounts[i],
        ));
    lemma_sum_congruent(kv, kv2, accounts);
}

/// How one allowance write moves the stored ledger: the written pair
/// reads the new value, every balance, the supply and every other
/// allowance are untouched.
proof fn lemma_allowance_write(
    kv: Kv,
    accounts: Seq<Seq<char>>,
    owner: Seq<char>,
    spender: Seq<char>,
    v: u128,
)
    requires
        encode_utf8(owner).len() < 65536,
        balances_readable(kv),
        accounts_cover(kv, accounts),
    ensures
        ({
            let kv2 = kv.insert(allowance_key(owner, spender), be_bytes(v as nat, 16));
            &&& balances_readable(kv2)
            &&& accounts_cover(kv2, accounts)
            &&& (forall|a: Seq<char>| #[trigger] balance_of(kv2, a) == balance_of(kv, a))
            &&& sum_balances(kv2, accounts) == sum_balances(kv, accounts)
            &&& stored_val(kv2, supply_key()) == stored_val(kv, supply_key())
            &&& stored_ok(kv2, supply_key()) == stored_ok(kv, supply_key())
            &&& allowance_of(kv2, owner, spender) == v as nat
            &&& allowance_ok(kv2, owner, spender)
            &&& (forall|o: Seq<char>, s: Seq<char>|
                encode_utf8(o).len() < 65536 && (o != owner || s != spender)
                    ==> #[trigger] allowance_of(kv2, o, s) == allowance_of(kv, o, s))
            &&& (forall|o: Seq<char>, s: Seq<char>|
                allowance_ok(kv, o, s) ==> #[trigger] allowance_ok(kv2, o, s))
        }),
{
    let ak = allowance_key(owner, spender);
    let kv2 = kv.insert(ak, be_bytes(v as nat, 16));
    lemma_be_bytes_len(v as nat, 16);
    lemma_pow256_16();
    lemma_be_val_of_be_bytes(v as nat, 16);
    assert forall|a: Seq<char>| #[trigger] balance_of(kv2, a) == balance_of(kv, a) by {
        assert(ns_allowances().len() != ns_balances().len());
        lemma_balance_key_other_ns(
            ns_allowances(),
            namespaced_key(encode_utf8(owner), encode_utf8(spender)),
            a,
        );
    }
    assert forall|a: Seq<char>| #[trigger] balance_ok(kv2, a) == balance_ok(kv, a) by {
        assert(ns_allowances().len() != ns_balances().len());
        lemma_balance_key_other_ns(
            ns_allowances(),
            namespaced_key(encode_utf8(owner), encode_utf8(spender)),
            a,
        );
    }
    assert(supply_key() != ak) by {
        if supply_key() == ak {
            lemma_namespaced_key_injective(
                ns_config(),
                crate::storage::key_total_supply(),
                ns_allowances(),
                namespaced_key(encode_utf8(owner), encode_utf8(spender)),
            );
            assert(ns_config().len() != ns_allowances().len());
        }
    };
    assert forall|o: Seq<char>, s: Seq<char>|
        encode_utf8(o).len() < 65536 && (o != owner || s != spender)
            implies #[trigger] allowance_of(kv2, o, s) == allowance_of(kv, o, s) by {
        if allowance_key(o, s) == ak {
            lemma_allowance_key_injective(o, s, owner, spender);
        }
    }
    assert forall|o: Seq<char>, s: Seq<char>|
        allowance_ok(kv, o, s) implies #[trigger] allowance_ok(kv2, o, s) by {
        if allowance_key(o, s) == ak {
        } else {
        }
    }
    assert(forall|i: int|
        0 <= i < accounts.len() ==> balance_of(kv2, #[trigger] accounts[i]) == balance_of(
            kv,
            accounts[i],
        ));
    lemma_sum_congruent(kv, kv2, accounts);
}

/// Reads an account's balance entry.
fn read_balance(store: &MemoryStorage, addr: &String) -> (r: Result<u128, Error>)
    ensures
        match r {
            Ok(v) => balance_ok(kv_of(*store), addr@) && v as nat == balance_of(
                kv_of(*store),
                addr@,
            ),
            Err(e) => !balance_ok(kv_of(*store), addr@) && e == Error::CorruptData,
        },
{
    let key = balance_key_vec(addr.as_str());
    read_u128(store, key.as_slice())
}

/// Writes an account's balance entry.
fn write_balance(store: &mut MemoryStorage, addr: &String, v: u128)
    ensures
        kv_of(*final(store)) == kv_of(*old(store)).insert(
            balance_key(addr@),
            be_bytes(v as nat, 16),
        ),
{
    let key = balance_key_vec(addr.as_str());
    write_u128(store, key.as_slice(), v)
}

/// Reads an allowance entry.
fn read_allowance(store: &MemoryStorage, owner: &String, spender: &String) -> (r: Result<
    u128,
    Error,
>)
    requires
        encode_utf8(owner@).len() < 65536,
    ensures
        match r {
            Ok(v) => allowance_ok(kv_of(*store), owner@, spender@) && v as nat == allowance_of(
                kv_of(*store),
                owner@,
                spender@,
            ),
            Err(e) => !allowance_ok(kv_of(*store), owner@, spender@) && e == Error::CorruptData,
        },
{
    let key = allowance_key_vec(owner.as_str(), spender.as_str());
    read_u128(store, key.as_slice())
}

/// Writes an allowance entry.
fn write_allowance(store: &mut MemoryStorage, owner: &String, spender: &String, v: u128)
    requires
        encode_utf8(owner@).len() < 65536,
    ensures
        kv_of(*final(store)) == kv_of(*old(store)).insert(
            allowance_key(owner@, spender@),
            be_bytes(v as nat, 16),
        ),
{
    let key = allowance_key_vec(owner.as_str(), spender.as_str());
    write_u128(store, key.as_slice(), v)
}

/// The stored ledger after a transfer: the sender's entry is written
/// down by `amount`, then the recipient's entry is re-read and written
/// up by `amount` (so a self-transfer nets to no change).
pub open spec fn transfer_post(kv: Kv, from: Seq<char>, to: Seq<char>, amount: nat) -> Kv {
    let kv1 = kv.insert(
        balance_key(from),
        be_bytes((balance_of(kv, from) - amount) as nat, 16),
    );
    kv1.insert(balance_key(to), be_bytes((balance_of(kv1, to) + amount) as nat, 16))
}

/// Debits the sender and credits the recipient, validating before any
/// write. Under the ledger invariant the credited balance cannot
/// overflow, because both balances are bounded by the total supply.
fn perform_transfer(
    store: &mut MemoryStorage,
    Ghost(accounts): Ghost<Seq<Seq<char>>>,
    from: &String,
    to: &String,
    amount: u128,
) -> (r: Result<(), Error>)
    requires
        ledger_inv(kv_of(*old(store)), accounts),
    ensures
        match r {
            Ok(_) => {
                &&& balance_of(kv_of(*old(store)), from@) >= amount
                &&& kv_of(*final(store)) == transfer_post(
                    kv_of(*old(store)),
                    from@,
                    to@,
                    amount as nat,
                )
                &&& ledger_inv(
                    kv_of(*final(store)),
                    with_account(with_account(accounts, from@), to@),
                )
                &&& supply_of(kv_of(*final(store))) == supply_of(kv_of(*old(store)))
                &&& (from@ != to@ ==> balance_of(kv_of(*final(store)), from@) == balance_of(
                    kv_of(*old(store)),
                    from@,
                ) - amount && balance_of(kv_of(*final(store)), to@) == balance_of(
                    kv_of(*old(store)),
                    to@,
                ) + amount)
                &&& (from@ == to@ ==> balance_of(kv_of(*final(store)), from@) == balance_of(
                    kv_of(*old(store)),
                    from@,
                ))
                &&& (forall|a: Seq<char>|
                    a != from@ && a != to@ ==> #[trigger] balance_of(kv_of(*final(store)), a)
                        == balance_of(kv_of(*old(store)), a))
                &&& (forall|o: Seq<char>, s: Seq<char>| #[trigger]
                    allowance_of(kv_of(*final(store)), o, s) == allowance_of(
                        kv_of(*old(store)),
                        o,
                        s,
                    ))
                &&& (forall|o: Seq<char>, s: Seq<char>| #[trigger]
                    allowance_ok(kv_of(*final(store)), o, s) == allowance_ok(
                        kv_of(*old(store)),
                        o,
                        s,
                    ))
            },
            Err(e) => {
                &&& kv_of(*final(store)) == kv_of(*old(store))
                &&& balance_of(kv_of(*old(store)), from@) < amount
                &&& e == (Error::InsufficientFunds {
                    balance: balance_of(kv_of(*old(store)), from@) as u128,
                    required: amount,
                })
            },
        },
{
    let ghost kv0 = kv_of(*store);
    let from_balance = match read_balance(store, from) {
        Ok(v) => v,
        Err(_) => unreached(),
    };
    if from_balance < amount {
        return Err(Error::InsufficientFunds { balance: from_balance, required: amount });
    }
    if *from == *to {
        write_balance(store, from, from_balance - amount);
        proof {
            lemma_balance_write(kv0, accounts, from@, (from_balance - amount) as u128);
        }
        let ghost kv1 = kv_of(*store);
        let ghost acc1 = with_account(accounts, from@);
        write_balance(store, to, (from_balance - amount) + amount);
        proof {
            lemma_balance_write(kv1, acc1, to@, from_balance);
            assert(acc1.contains(from@)) by {
                if !accounts.contains(from@) {
                    assert(acc1[acc1.len() - 1] == from@);
                }
            };
            assert(with_account(acc1, to@) == acc1);
            assert(balance_of(kv1, to@) == (from_balance - amount) as nat);
            assert(kv_of(*store) == transfer_post(kv0, from@, to@, amount as nat));
        }
        Ok(())
    } else {
        let to_balance = match read_balance(store, to) {
            Ok(v) => v,
            Err(_) => unreached(),
        };
        proof {
            if amount > 0 {
                assert(balance_of(kv0, from@) != 0);
                assert(accounts.contains(from@));
                if balance_of(kv0, to@) != 0 {
                    assert(accounts.contains(to@));
                    lemma_two_le_sum(kv0, accounts, from@, to@);
                } else {
                    lemma_one_le_sum(kv0, accounts, from@);
                }
            }
            assert(to_balance as nat + amount as nat <= u128::MAX);
        }
        write_balance(store, from, from_balance - amount);
        proof {
            lemma_balance_write(kv0, accounts, from@, (from_balance - amount) as u128);
        }
        let ghost kv1 = kv_of(*store);
        let ghost acc1 = with_account(accounts, from@);
        write_balance(store, to, to_balance + amount);
        proof {
            lemma_balance_write(kv1, acc1, to@, (to_balance + amount) as u128);
            assert(balance_of(kv1, to@) == balance_of(kv0, to@));
            assert(kv_of(*store) == transfer_post(kv0, from@, to@, amount as nat));
        }
        Ok(())
    }
}

/// The full contract of `try_transfer`, relating the stored ledger and
/// account list before and after the call.
pub open spec fn transfer_spec(
    kv0: Kv,
    kv1: Kv,
    acc0: Seq<Seq<char>>,
    acc1: Seq<Seq<char>>,
    sender: Seq<char>,
    recipient: Seq<char>,
    amount: Seq<char>,
    r: Result<HandleResponse, Error>,
) -> bool {
    match r {
        Ok(resp) => {
            &&& valid_amount(amount)
            &&& balance_of(kv0, sender) >= dec_val(amount)
            &&& kv1 == transfer_post(kv0, sender, recipient, dec_val(amount))
            &&& acc1 == with_account(with_account(acc0, sender), recipient)
            &&& ledger_inv(kv1, acc1)
            &&& supply_of(kv1) == supply_of(kv0)
            &&& sum_balances(kv1, acc1) == sum_balances(kv0, acc0)
            &&& (sender != recipient ==> balance_of(kv1, sender) == balance_of(kv0, sender)
                - dec_val(amount) && balance_of(kv1, recipient) == balance_of(kv0, recipient)
                + dec_val(amount))
            &&& (sender == recipient ==> balance_of(kv1, sender) == balance_of(kv0, sender))
            &&& resp.messages@.len() == 0
            &&& resp.log@.len() == 3
            &&& log_is(resp.log@[0], "action"@, "transfer"@)
            &&& log_is(resp.log@[1], "sender"@, sender)
            &&& log_is(resp.log@[2], "recipient"@, recipient)
        },
        Err(e) => {
            &&& kv1 == kv0
            &&& acc1 == acc0
            &&& (!valid_amount(amount) ==> e == Error::InvalidAmount)
            &&& (valid_amount(amount) ==> balance_of(kv0, sender) < dec_val(amount) && e == (
            Error::InsufficientFunds {
                balance: balance_of(kv0, sender) as u128,
                required: dec_val(amount) as u128,
            }))
        },
    }
}

/// Moves an amount (a decimal string) from the transaction sender to
/// `recipient`. Rejects a malformed amount, then insufficient funds,
/// before any write; conservation is part of the re-established
/// invariant.
pub fn try_transfer(
    store: &mut MemoryStorage,
    state: &mut State,
    env: &Env,
    recipient: &String,
    amount: &str,
) -> (r: Result<HandleResponse, Error>)
    requires
        ledger_inv(kv_of(*old(store)), old(state).accounts@),
    ensures
        final(state).minter == old(state).minter,
        transfer_spec(
            kv_of(*old(store)),
            kv_of(*final(store)),
            old(state).accounts@,
            final(state).accounts@,
            env.message.sender@,
            recipient@,
            amount@,
            r,
        ),
{
    let amount_raw = match parse_u128(amount) {
        Ok(v) => v,
        Err(e) => {
            return Err(e);
        },
    };
    match perform_transfer(
        store,
        Ghost(state.accounts@),
        &env.message.sender,
        recipient,
        amount_raw,
    ) {
        Ok(_) => {
            state.accounts = Ghost(
                with_account(
                    with_account(state.accounts@, env.message.sender@),
                    recipient@,
                ),
            );
            let mut lg: Vec<LogAttribute> = Vec::new();
            lg.push(log("action", "transfer"));
            lg.push(log("sender", env.message.sender.as_str()));
            lg.push(log("recipient", recipient.as_str()));
            Ok(HandleResponse { messages: Vec::new(), log: lg })
        },
        Err(e) => Err(e),
    }
}

/// The full contract of `try_approve`: the allowance entry is
/// overwritten — never added to — and nothing else moves.
pub open spec fn approve_spec(
    kv0: Kv,
    kv1: Kv,
    acc0: Seq<Seq<char>>,
    acc1: Seq<Seq<char>>,
    sender: Seq<char>,
    spender: Seq<char>,
    amount: Seq<char>,
    r: Result<HandleResponse, Error>,
) -> bool {
    match r {
        Ok(resp) => {
            &&& valid_amount(amount)
            &&& kv1 == kv0.insert(allowance_key(sender, spender), be_bytes(dec_val(amount), 16))
            &&& acc1 == acc0
            &&& ledger_inv(kv1, acc1)
            &&& supply_of(kv1) == supply_of(kv0)
            &&& allowance_of(kv1, sender, spender) == dec_val(amount)
            &&& (forall|a: Seq<char>| #[trigger] balance_of(kv1, a) == balance_of(kv0, a))
            &&& resp.messages@.len() == 0
            &&& resp.log@.len() == 3
            &&& log_is(resp.log@[0], "action"@, "approve"@)
            &&& log_is(resp.log@[1], "owner"@, sender)
            &&& log_is(resp.log@[2], "spender"@, spender)
        },
        Err(e) => {
            &&& kv1 == kv0
            &&& acc1 == acc0
            &&& e == Error::InvalidAmount
            &&& !valid_amount(amount)
        },
    }
}

/// Overwrites the allowance the sender grants `spender`.
pub fn try_approve(
    store: &mut MemoryStorage,
    state: &mut State,
    env: &Env,
    spender: &String,
    amount: &str,
) -> (r: Result<HandleResponse, Error>)
    requires
        ledger_inv(kv_of(*old(store)), old(state).accounts@),
        encode_utf8(env.message.sender@).len() < 65536,
    ensures
        final(state).minter == old(state).minter,
        approve_spec(
            kv_of(*old(store)),
            kv_of(*final(store)),
            old(state).accounts@,
            final(state).accounts@,
            env.message.sender@,
            spender@,
            amount@,
            r,
        ),
{
    let amount_raw = match parse_u128(amount) {
        Ok(v) => v,
        Err(e) => {
            return Err(e);
        },
    };
    let ghost kv0 = kv_of(*store);
    write_allowance(store, &env.message.sender, spender, amount_raw);
    proof {
        lemma_allowance_write(kv0, state.accounts@, env.message.sender@, spender@, amount_raw);
    }
    let mut lg: Vec<LogAttribute> = Vec::new();
    lg.push(log("action", "approve"));
    lg.push(log("owner", env.message.sender.as_str()));
    lg.push(log("spender", spender.as_str()));
    Ok(HandleResponse { messages: Vec::new(), log: lg })
}

/// The full contract of `try_transfer_from`: the spent amount never
/// exceeds the allowance at call time, the allowance is debited, and
/// the owner's balance moves to the recipient.
pub open spec fn transfer_from_spec(
    kv0: Kv,
    kv1: Kv,
    acc0: Seq<Seq<char>>,
    acc1: Seq<Seq<char>>,
    spender: Seq<char>,
    owner: Seq<char>,
    recipient: Seq<char>,
    amount: Seq<char>,
    r: Result<HandleResponse, Error>,
) -> bool {
    match r {
        Ok(resp) => {
            let amt = dec_val(amount);
            let kv_a = kv0.insert(
                allowance_key(owner, spender),
                be_bytes((allowance_of(kv0, owner, spender) - amt) as nat, 16),
            );
            &&& valid_amount(amount)
            &&& amt <= allowance_of(kv0, owner, spender)
            &&& balance_of(kv0, owner) >= amt
            &&& kv1 == transfer_post(kv_a, owner, recipient, amt)
            &&& allowance_of(kv1, owner, spender) == allowance_of(kv0, owner, spender) - amt
            &&& acc1 == with_account(with_account(acc0, owner), recipient)
            &&& ledger_inv(kv1, acc1)
            &&& supply_of(kv1) == supply_of(kv0)
            &&& sum_balances(kv1, acc1) == sum_balances(kv0, acc0)
            &&& (owner != recipient ==> balance_of(kv1, owner) == balance_of(kv0, owner) - amt
                && balance_of(kv1, recipient) == balance_of(kv0, recipient) + amt)
            &&& (owner == recipient ==> balance_of(kv1, owner) == balance_of(kv0, owner))
            &&& resp.messages@.len() == 0
            &&& resp.log@.len() == 4
            &&& log_is(resp.log@[0], "action"@, "transfer_from"@)
            &&& log_is(resp.log@[1], "spender"@, spender)
            &&& log_is(resp.log@[2], "sender"@, owner)
            &&& log_is(resp.log@[3], "recipient"@, recipient)
        },
        Err(e) => {
            let amt = dec_val(amount);
            &&& kv1 == kv0
            &&& acc1 == acc0
            &&& (!valid_amount(amount) ==> e == Error::InvalidAmount)
            &&& (valid_amount(amount) && allowance_of(kv0, owner, spender) < amt ==> e == (
            Error::InsufficientAllowance {
                allowance: allowance_of(kv0, owner, spender) as u128,
                required: amt as u128,
            }))
            &&& (valid_amount(amount) && allowance_of(kv0, owner, spender) >= amt ==> balance_of(
                kv0,
                owner,
            ) < amt && e == (Error::InsufficientFunds {
                balance: balance_of(kv0, owner) as u128,
                required: amt as u128,
            }))
        },
    }
}

/// Spends the sender's allowance from `owner` and moves the amount to
/// `recipient`. Both the allowance check and the funds check happen
/// before any write.
pub fn try_transfer_from(
    store: &mut MemoryStorage,
    state: &mut State,
    env: &Env,
    owner: &String,
    recipient: &String,
    amount: &str,
) -> (r: Result<HandleResponse, Error>)
    requires
        ledger_inv(kv_of(*old(store)), old(state).accounts@),
        encode_utf8(owner@).len() < 65536,
    ensures
        final(state).minter == old(state).minter,
        transfer_from_spec(
            kv_of(*old(store)),
            kv_of(*final(store)),
            old(state).accounts@,
            final(state).accounts@,
            env.message.sender@,
            owner@,
            recipient@,
            amount@,
            r,
        ),
{
    let amount_raw = match parse_u128(amount) {
        Ok(v) => v,
        Err(e) => {
            return Err(e);
        },
    };
    let allowance = match read_allowance(store, owner, &env.message.sender) {
        Ok(v) => v,
        Err(_) => unreached(),
    };
    if allowance < amount_raw {
        return Err(Error::InsufficientAllowance { allowance, required: amount_raw });
    }
    let owner_balance = match read_balance(store, owner) {
        Ok(v) => v,
        Err(_) => unreached(),
    };
    if owner_balance < amount_raw {
        return Err(Error::InsufficientFunds { balance: owner_balance, required: amount_raw });
    }
    let ghost kv0 = kv_of(*store);
    write_allowance(store, owner, &env.message.sender, allowance - amount_raw);
    proof {
        lemma_allowance_write(
            kv0,
            state.accounts@,
            owner@,
            env.message.sender@,
            (allowance - amount_raw) as u128,
        );
    }
    match perform_transfer(store, Ghost(state.accounts@), owner, recipient, amount_raw) {
        Ok(_) => {
            state.accounts = Ghost(
                with_account(with_account(state.accounts@, owner@), recipient@),
            );
            let mut lg: Vec<LogAttribute> = Vec::new();
            lg.push(log("action", "transfer_from"));
            lg.push(log("spender", env.message.sender.as_str()));
            lg.push(log("sender", owner.as_str()));
            lg.push(log("recipient", recipient.as_str()));
            Ok(HandleResponse { messages: Vec::new(), log: lg })
        },
        Err(_) => unreached(),
    }
}

/// A configuration key never collides with a balance or allowance key.
proof fn lemma_config_key_distinct(k: Seq<u8>, a: Seq<char>, o: Seq<char>, s: Seq<char>)
    ensures
        namespaced_key(ns_config(), k) != balance_key(a),
        namespaced_key(ns_config(), k) != allowance_key(o, s),
{
    assert(ns_config().len() != ns_balances().len());
    lemma_balance_key_other_ns(ns_config(), k, a);
    if namespaced_key(ns_config(), k) == allowance_key(o, s) {
        lemma_namespaced_key_injective(
            ns_config(),
            k,
            ns_allowances(),
            namespaced_key(encode_utf8(o), encode_utf8(s)),
        );
        assert(ns_config().len() != ns_allowances().len());
    }
}

/// Reads the stored total supply.
fn read_supply(store: &MemoryStorage) -> (r: Result<u128, Error>)
    ensures
        match r {
            Ok(v) => supply_ok(kv_of(*store)) && v as nat == supply_of(kv_of(*store)),
            Err(e) => !supply_ok(kv_of(*store)) && e == Error::CorruptData,
        },
{
    let key = supply_key_vec();
    read_u128(store, key.as_slice())
}

/// The full contract of `try_burn`: the sender's balance and the total
/// supply both fall by the amount, nothing else moves.
pub open spec fn burn_spec(
    kv0: Kv,
    kv1: Kv,
    acc0: Seq<Seq<char>>,
    acc1: Seq<Seq<char>>,
    sender: Seq<char>,
    amount: Seq<char>,
    r: Result<HandleResponse, Error>,
) -> bool {
    match r {
        Ok(resp) => {
            let amt = dec_val(amount);
            &&& valid_amount(amount)
            &&& balance_of(kv0, sender) >= amt
            &&& kv1 == kv0.insert(
                balance_key(sender),
                be_bytes((balance_of(kv0, sender) - amt) as nat, 16),
            ).insert(supply_key(), be_bytes((supply_of(kv0) - amt) as nat, 16))
            &&& acc1 == with_account(acc0, sender)
            &&& ledger_inv(kv1, acc1)
            &&& supply_of(kv1) == supply_of(kv0) - amt
            &&& balance_of(kv1, sender) == balance_of(kv0, sender) - amt
            &&& (forall|a: Seq<char>|
                a != sender ==> #[trigger] balance_of(kv1, a) == balance_of(kv0, a))
            &&& resp.messages@.len() == 0
            &&& resp.log@.len() == 3
            &&& log_is(resp.log@[0], "action"@, "burn"@)
            &&& log_is(resp.log@[1], "account"@, sender)
            &&& log_is(resp.log@[2], "amount"@, amount)
        },
        Err(e) => {
            &&& kv1 == kv0
            &&& acc1 == acc0
            &&& (!valid_amount(amount) ==> e == Error::InvalidAmount)
            &&& (valid_amount(amount) ==> balance_of(kv0, sender) < dec_val(amount) && e == (
            Error::InsufficientFundsBurn {
                balance: balance_of(kv0, sender) as u128,
                required: dec_val(amount) as u128,
            }))
        },
    }
}

/// Removes an amount of tokens from the sender's balance and from the
/// total supply, irreversibly.
pub fn try_burn(store: &mut MemoryStorage, state: &mut State, env: &Env, amount: &str) -> (r:
    Result<HandleResponse, Error>)
    requires
        ledger_inv(kv_of(*old(store)), old(state).accounts@),
    ensures
        final(state).minter == old(state).minter,
        burn_spec(
            kv_of(*old(store)),
            kv_of(*final(store)),
            old(state).accounts@,
            final(state).accounts@,
            env.message.sender@,
            amount@,
            r,
        ),
{
    let amount_raw = match parse_u128(amount) {
        Ok(v) => v,
        Err(e) => {
            return Err(e);
        },
    };
    let ghost kv0 = kv_of(*store);
    let ghost acc0 = state.accounts@;
    let balance = match read_balance(store, &env.message.sender) {
        Ok(v) => v,
        Err(_) => unreached(),
    };
    if balance < amount_raw {
        return Err(Error::InsufficientFundsBurn { balance, required: amount_raw });
    }
    proof {
        if balance_of(kv0, env.message.sender@) != 0 {
            lemma_one_le_sum(kv0, acc0, env.message.sender@);
        }
        assert(amount_raw as nat <= supply_of(kv0));
    }
    write_balance(store, &env.message.sender, balance - amount_raw);
    proof {
        lemma_balance_write(kv0, acc0, env.message.sender@, (balance - amount_raw) as u128);
    }
    state.accounts = Ghost(with_account(acc0, env.message.sender@));
    let ghost kv1 = kv_of(*store);
    let supply = match read_supply(store) {
        Ok(v) => v,
        Err(_) => unreached(),
    };
    let new_supply = supply - amount_raw;
    let skey = supply_key_vec();
    write_u128(store, skey.as_slice(), new_supply);
    proof {
        assert forall|a: Seq<char>| supply_key() != #[trigger] balance_key(a) by {
            lemma_config_key_distinct(crate::storage::key_total_supply(), a, a, a);
        }
        assert forall|o: Seq<char>, s: Seq<char>|
            supply_key() != #[trigger] allowance_key(o, s) by {
            lemma_config_key_distinct(crate::storage::key_total_supply(), o, o, s);
        }
        lemma_nonbalance_write(
            kv1,
            state.accounts@,
            supply_key(),
            be_bytes(new_supply as nat, 16),
        );
    }
    let mut lg: Vec<LogAttribute> = Vec::new();
    lg.push(log("action", "burn"));
    lg.push(log("account", env.message.sender.as_str()));
    lg.push(log("amount", amount));
    Ok(HandleResponse { messages: Vec::new(), log: lg })
}

/// The full contract of `try_mint`: only the recorded minter may mint,
/// and a rejected mint leaves supply and balances unchanged.
pub open spec fn mint_spec(
    kv0: Kv,
    kv1: Kv,
    acc0: Seq<Seq<char>>,
    acc1: Seq<Seq<char>>,
    sender: Seq<char>,
    minter: Seq<char>,
    recipient: Seq<char>,
    amount: Seq<char>,
    r: Result<HandleResponse, Error>,
) -> bool {
    match r {
        Ok(resp) => {
            let amt = dec_val(amount);
            &&& valid_amount(amount)
            &&& sender == minter
            &&& supply_of(kv0) + amt <= u128::MAX
            &&& kv1 == kv0.insert(
                balance_key(recipient),
                be_bytes(balance_of(kv0, recipient) + amt, 16),
            ).insert(supply_key(), be_bytes(supply_of(kv0) + amt, 16))
            &&& acc1 == with_account(acc0, recipient)
            &&& ledger_inv(kv1, acc1)
            &&& supply_of(kv1) == supply_of(kv0) + amt
            &&& balance_of(kv1, recipient) == balance_of(kv0, recipient) + amt
            &&& (forall|a: Seq<char>|
                a != recipient ==> #[trigger] balance_of(kv1, a) == balance_of(kv0, a))
            &&& resp.messages@.len() == 0
            &&& resp.log@.len() == 3
            &&& log_is(resp.log@[0], "action"@, "mint"@)
            &&& log_is(resp.log@[1], "account"@, recipient)
            &&& log_is(resp.log@[2], "amount"@, amount)
        },
        Err(e) => {
            &&& kv1 == kv0
            &&& acc1 == acc0
            &&& (!valid_amount(amount) ==> e == Error::InvalidAmount)
            &&& (valid_amount(amount) ==> sender != minter && e == Error::Unauthorized)
        },
    }
}

/// Credits the recipient and the total supply. Rejects any caller
/// other than the recorded minter before touching the ledger.
pub fn try_mint(
    store: &mut MemoryStorage,
    state: &mut State,
    env: &Env,
    recipient: &String,
    amount: &str,
) -> (r: Result<HandleResponse, Error>)
    requires
        ledger_inv(kv_of(*old(store)), old(state).accounts@),
        valid_amount(amount@) && env.message.sender@ == old(state).minter@ ==> supply_of(
            kv_of(*old(store)),
        ) + dec_val(amount@) <= u128::MAX,
    ensures
        final(state).minter == old(state).minter,
        mint_spec(
            kv_of(*old(store)),
            kv_of(*final(store)),
            old(state).accounts@,
            final(state).accounts@,
            env.message.sender@,
            old(state).minter@,
            recipient@,
            amount@,
            r,
        ),
{
    let amount_raw = match parse_u128(amount) {
        Ok(v) => v,
        Err(e) => {
            return Err(e);
        },
    };
    if !(env.message.sender == state.minter) {
        return Err(Error::Unauthorized);
    }
    let ghost kv0 = kv_of(*store);
    let ghost acc0 = state.accounts@;
    let balance = match read_balance(store, recipient) {
        Ok(v) => v,
        Err(_) => unreached(),
    };
    let supply = match read_supply(store) {
        Ok(v) => v,
        Err(_) => unreached(),
    };
    proof {
        if balance_of(kv0, recipient@) != 0 {
            lemma_one_le_sum(kv0, acc0, recipient@);
        }
        assert(balance as nat <= supply_of(kv0));
    }
    write_balance(store, recipient, balance + amount_raw);
    proof {
        lemma_balance_write(kv0, acc0, recipient@, (balance + amount_raw) as u128);
    }
    state.accounts = Ghost(with_account(acc0, recipient@));
    let ghost kv1 = kv_of(*store);
    let new_supply = supply + amount_raw;
    let skey = supply_key_vec();
    write_u128(store, skey.as_slice(), new_supply);
    proof {
        assert forall|a: Seq<char>| supply_key() != #[trigger] balance_key(a) by {
            lemma_config_key_distinct(crate::storage::key_total_supply(), a, a, a);
        }
        assert forall|o: Seq<char>, s: Seq<char>|
            supply_key() != #[trigger] allowance_key(o, s) by {
            lemma_config_key_distinct(crate::storage::key_total_supply(), o, o, s);
        }
        lemma_nonbalance_write(
            kv1,
            state.accounts@,
            supply_key(),
            be_bytes(new_supply as nat, 16),
        );
    }
    let mut lg: Vec<LogAttribute> = Vec::new();
    lg.push(log("action", "mint"));
    lg.push(log("account", recipient.as_str()));
    lg.push(log("amount", amount));
    Ok(HandleResponse { messages: Vec::new(), log: lg })
}

/// A valid token name is 3 to 30 UTF-8 bytes long.
pub open spec fn valid_name(s: Seq<char>) -> bool {
    3 <= encode_utf8(s).len() <= 30
}

/// A valid ticker symbol is 3 to 6 bytes, all uppercase A to Z.
pub open spec fn valid_symbol(s: Seq<char>) -> bool {
    &&& 3 <= encode_utf8(s).len() <= 6
    &&& forall|i: int| 0 <= i < encode_utf8(s).len() ==> 65 <= #[trigger] encode_utf8(s)[i] <= 90
}

/// Whether a token name is acceptable.
pub fn is_valid_name(name: &str) -> (r: bool)
    ensures
        r == valid_name(name@),
{
    let bytes = name.as_bytes();
    3 <= bytes.len() && bytes.len() <= 30
}

/// Whether a ticker symbol is acceptable.
pub fn is_valid_symbol(symbol: &str) -> (r: bool)
    ensures
        r == valid_symbol(symbol@),
{
    let bytes = symbol.as_bytes();
    let n = bytes.len();
    if n < 3 || n > 6 {
        return false;
    }
    let mut i: usize = 0;
    while i < n
        invariant
            bytes@ == encode_utf8(symbol@),
            n == bytes@.len(),
            i <= n,
            forall|j: int| 0 <= j < i ==> 65 <= #[trigger] bytes@[j] <= 90,
        decreases n - i,
    {
        let b = bytes[i];
        if b < 65 || b > 90 {
            return false;
        }
        i = i + 1;
    }
    true
}

/// The sum of the opening amounts of the first rows.
pub open spec fn init_supply(rows: Seq<InitialBalance>) -> nat
    decreases rows.len(),
{
    if rows.len() == 0 {
        0
    } else {
        init_supply(rows.drop_last()) + dec_val(rows.last().amount@)
    }
}

/// The opening balance of one account: every row naming it credits it.
pub open spec fn init_balance(rows: Seq<InitialBalance>, a: Seq<char>) -> nat
    decreases rows.len(),
{
    if rows.len() == 0 {
        0
    } else {
        init_balance(rows.drop_last(), a) + if rows.last().address@ == a {
            dec_val(rows.last().amount@)
        } else {
            0
        }
    }
}

/// Whether the opening balances are acceptable: every amount parses
/// and their total fits in 128 bits.
pub open spec fn init_rows_ok(rows: Seq<InitialBalance>) -> bool {
    &&& forall|i: int| 0 <= i < rows.len() ==> valid_amount(#[trigger] rows[i].amount@)
    &&& init_supply(rows) <= u128::MAX
}

proof fn lemma_init_supply_prefix(rows: Seq<InitialBalance>, j: int)
    requires
        0 <= j <= rows.len(),
    ensures
        init_supply(rows.take(j)) <= init_supply(rows),
    decreases rows.len() - j,
{
    if j == rows.len() {
        assert(rows.take(j) =~= rows);
    } else {
        lemma_init_supply_prefix(rows, j + 1);
        assert(rows.take(j + 1).drop_last() =~= rows.take(j));
    }
}

/// The full contract of ledger initialization: metadata is validated
/// first, every opening row credits its account, the supply is their
/// total, and the invariant — conservation included — is established.
pub open spec fn init_spec(env: Env, msg: InitMsg, r: Result<
    (MemoryStorage, State, InitResponse),
    Error,
>) -> bool {
    match r {
        Ok((store, state, resp)) => {
            &&& valid_name(msg.name@)
            &&& valid_symbol(msg.symbol@)
            &&& msg.decimals <= 18
            &&& init_rows_ok(msg.initial_balances@)
            &&& state.minter@ == env.message.sender@
            &&& ledger_inv(kv_of(store), state.accounts@)
            &&& supply_of(kv_of(store)) == init_supply(msg.initial_balances@)
            &&& (forall|a: Seq<char>| #[trigger]
                balance_of(kv_of(store), a) == init_balance(msg.initial_balances@, a))
            &&& kv_of(store).dom().contains(name_key()) && kv_of(store)[name_key()]
                == encode_utf8(msg.name@)
            &&& kv_of(store).dom().contains(symbol_key()) && kv_of(store)[symbol_key()]
                == encode_utf8(msg.symbol@)
            &&& kv_of(store).dom().contains(decimals_key()) && kv_of(store)[decimals_key()]
                == seq![msg.decimals]
            &&& resp.messages@.len() == 0
            &&& resp.log@.len() == 0
        },
        Err(e) => {
            &&& (e == Error::InvalidName || e == Error::InvalidSymbol || e
                == Error::InvalidDecimals || e == Error::InvalidAmount)
            &&& (e == Error::InvalidName <==> !valid_name(msg.name@))
            &&& (e == Error::InvalidSymbol <==> valid_name(msg.name@) && !valid_symbol(
                msg.symbol@,
            ))
            &&& (e == Error::InvalidDecimals <==> valid_name(msg.name@) && valid_symbol(
                msg.symbol@,
            ) && msg.decimals > 18)
            &&& (e == Error::InvalidAmount <==> valid_name(msg.name@) && valid_symbol(msg.symbol@)
                && msg.decimals <= 18 && !init_rows_ok(msg.initial_balances@))
        },
    }
}

/// Creates a ledger: validates name, symbol and decimals, credits each
/// opening balance (a duplicate address is credited again, not
/// overwritten), stores the metadata, and records the caller as minter.
pub fn init(env: &Env, msg: &InitMsg) -> (r: Result<(MemoryStorage, State, InitResponse), Error>)
    ensures
        init_spec(*env, *msg, r),
{
    if !is_valid_name(msg.name.as_str()) {
        return Err(Error::InvalidName);
    }
    if !is_valid_symbol(msg.symbol.as_str()) {
        return Err(Error::InvalidSymbol);
    }
    if msg.decimals > 18 {
        return Err(Error::InvalidDecimals);
    }
    let ghost rows = msg.initial_balances@;
    let mut store = kv_new();
    let mut supply: u128 = 0;
    let ghost mut accounts: Seq<Seq<char>> = Seq::empty();
    let n = msg.initial_balances.len();
    let mut i: usize = 0;
    proof {
        assert(rows.take(0) =~= Seq::<InitialBalance>::empty());
        assert(sum_balances(kv_of(store), accounts) == 0);
        assert forall|a: Seq<char>| #[trigger] balance_of(kv_of(store), a) == init_balance(
            rows.take(0),
            a,
        ) by {
            assert(!kv_of(store).dom().contains(balance_key(a)));
        }
        assert forall|a: Seq<char>| #[trigger] balance_ok(kv_of(store), a) by {
            assert(!kv_of(store).dom().contains(balance_key(a)));
        }
        assert forall|o: Seq<char>, s: Seq<char>| #[trigger] allowance_ok(kv_of(store), o, s) by {
            assert(!kv_of(store).dom().contains(allowance_key(o, s)));
        }
    }
    while i < n
        invariant
            valid_name(msg.name@),
            valid_symbol(msg.symbol@),
            msg.decimals <= 18,
            n == msg.initial_balances@.len(),
            rows == msg.initial_balances@,
            i <= n,
            balances_readable(kv_of(store)),
            allowances_readable(kv_of(store)),
            no_dup_accounts(accounts),
            accounts_cover(kv_of(store), accounts),
            sum_balances(kv_of(store), accounts) == supply as nat,
            supply as nat == init_supply(rows.take(i as int)),
            forall|a: Seq<char>| #[trigger]
                balance_of(kv_of(store), a) == init_balance(rows.take(i as int), a),
            forall|j: int| 0 <= j < i ==> valid_amount(#[trigger] rows[j].amount@),
        decreases n - i,
    {
        let row = &msg.initial_balances[i];
        let amount_raw = match parse_u128(row.amount.as_str()) {
            Ok(v) => v,
            Err(e) => {
                proof {
                    assert(!valid_amount(rows[i as int].amount@));
                    assert(!init_rows_ok(rows));
                }
                return Err(e);
            },
        };
        if supply > u128::MAX - amount_raw {
            proof {
                assert(rows.take(i as int + 1).drop_last() =~= rows.take(i as int));
                assert(rows.take(i as int + 1).last() == rows[i as int]);
                assert(init_supply(rows.take(i as int + 1)) > u128::MAX);
                lemma_init_supply_prefix(rows, i as int + 1);
                assert(!init_rows_ok(rows));
            }
            return Err(Error::InvalidAmount);
        }
        let ghost kv0 = kv_of(store);
        let balance = match read_balance(&store, &row.address) {
            Ok(v) => v,
            Err(_) => unreached(),
        };
        proof {
            if balance_of(kv0, row.address@) != 0 {
                lemma_one_le_sum(kv0, accounts, row.address@);
            }
            assert(balance as nat <= supply as nat);
        }
        write_balance(&mut store, &row.address, balance + amount_raw);
        proof {
            lemma_balance_write(kv0, accounts, row.address@, (balance + amount_raw) as u128);
            accounts = with_account(accounts, row.address@);
            assert(rows.take(i as int + 1).drop_last() =~= rows.take(i as int));
            assert(rows.take(i as int + 1).last() == rows[i as int]);
            assert forall|a: Seq<char>| #[trigger]
                balance_of(kv_of(store), a) == init_balance(rows.take(i as int + 1), a) by {
                if a == row.address@ {
                } else {
                    assert(balance_of(kv_of(store), a) == balance_of(kv0, a));
                }
            }
        }
        supply = supply + amount_raw;
        i = i + 1;
    }
    proof {
        assert(rows.take(n as int) =~= rows);
    }
    let ghost kv_rows = kv_of(store);
    let nkey = name_key_vec();
    kv_set_config(&mut store, Ghost(accounts), &nkey, Ghost(name_key()), msg.name.as_str().as_bytes());
    let skey = symbol_key_vec();
    kv_set_config(&mut store, Ghost(accounts), &skey, Ghost(symbol_key()), msg.symbol.as_str().as_bytes());
    let dkey = decimals_key_vec();
    let mut dval: Vec<u8> = Vec::new();
    dval.push(msg.decimals);
    kv_set_config(&mut store, Ghost(accounts), &dkey, Ghost(decimals_key()), dval.as_slice());
    proof {
        assert(kv_of(store)[name_key()] == encode_utf8(msg.name@)) by {
            lemma_distinct_config_keys();
        };
    }
    let ghost kv3 = kv_of(store);
    let tkey = supply_key_vec();
    write_u128(&mut store, tkey.as_slice(), supply);
    proof {
        assert forall|a: Seq<char>| supply_key() != #[trigger] balance_key(a) by {
            lemma_config_key_distinct(crate::storage::key_total_supply(), a, a, a);
        }
        assert forall|o: Seq<char>, s: Seq<char>|
            supply_key() != #[trigger] allowance_key(o, s) by {
            lemma_config_key_distinct(crate::storage::key_total_supply(), o, o, s);
        }
        lemma_nonbalance_write(kv3, accounts, supply_key(), be_bytes(supply as nat, 16));
        lemma_distinct_config_keys();
    }
    let state = State { minter: env.message.sender.clone(), accounts: Ghost(accounts) };
    let resp = InitResponse { messages: Vec::new(), log: Vec::new() };
    Ok((store, state, resp))
}

/// Answers a balance or allowance query with a decimal string; a
/// stored entry of the wrong width is reported as corrupt data.
pub fn query(store: &MemoryStorage, msg: QueryMsg) -> (r: Result<QueryAnswer, Error>)
    requires
        match msg {
            QueryMsg::Allowance { owner, .. } => encode_utf8(owner@).len() < 65536,
            _ => true,
        },
    ensures
        match msg {
            QueryMsg::Balance { address } => match r {
                Ok(QueryAnswer::Balance(b)) => balance_ok(kv_of(*store), address@) && b.balance@
                    == dec_of(balance_of(kv_of(*store), address@)),
                Ok(_) => false,
                Err(e) => !balance_ok(kv_of(*store), address@) && e == Error::CorruptData,
            },
            QueryMsg::Allowance { owner, spender } => match r {
                Ok(QueryAnswer::Allowance(a)) => allowance_ok(kv_of(*store), owner@, spender@)
                    && a.allowance@ == dec_of(allowance_of(kv_of(*store), owner@, spender@)),
                Ok(_) => false,
                Err(e) => !allowance_ok(kv_of(*store), owner@, spender@) && e
                    == Error::CorruptData,
            },
        },
{
    match msg {
        QueryMsg::Balance { address } => {
            let balance = match read_balance(store, &address) {
                Ok(v) => v,
                Err(e) => {
                    return Err(e);
                },
            };
            Ok(QueryAnswer::Balance(BalanceResponse { balance: u128_to_dec_string(balance) }))
        },
        QueryMsg::Allowance { owner, spender } => {
            let allowance = match read_allowance(store, &owner, &spender) {
                Ok(v) => v,
                Err(e) => {
                    return Err(e);
                },
            };
            Ok(
                QueryAnswer::Allowance(
                    AllowanceResponse { allowance: u128_to_dec_string(allowance) },
                ),
            )
        },
    }
}

/// Routes an inbound ledger message to its handler. The per-message
/// contracts are the `*_spec` functions; every path preserves the
/// ledger invariant, conservation included.
pub fn handle(store: &mut MemoryStorage, state: &mut State, env: &Env, msg: HandleMsg) -> (r:
    Result<HandleResponse, Error>)
    requires
        ledger_inv(kv_of(*old(store)), old(state).accounts@),
        match msg {
            HandleMsg::Approve { .. } => encode_utf8(env.message.sender@).len() < 65536,
            HandleMsg::TransferFrom { owner, .. } => encode_utf8(owner@).len() < 65536,
            HandleMsg::Mint { amount, .. } => valid_amount(amount@) && env.message.sender@ == old(
                state,
            ).minter@ ==> supply_of(kv_of(*old(store))) + dec_val(amount@) <= u128::MAX,
            _ => true,
        },
    ensures
        final(state).minter == old(state).minter,
        match msg {
            HandleMsg::Approve { spender, amount } => approve_spec(
                kv_of(*old(store)),
                kv_of(*final(store)),
                old(state).accounts@,
                final(state).accounts@,
                env.message.sender@,
                spender@,
                amount@,
                r,
            ),
            HandleMsg::Transfer { recipient, amount } => transfer_spec(
                kv_of(*old(store)),
                kv_of(*final(store)),
                old(state).accounts@,
                final(state).accounts@,
                env.message.sender@,
                recipient@,
                amount@,
                r,
            ),
            HandleMsg::TransferFrom { owner, recipient, amount } => transfer_from_spec(
                kv_of(*old(store)),
                kv_of(*final(store)),
                old(state).accounts@,
                final(state).accounts@,
                env.message.sender@,
                owner@,
                recipient@,
                amount@,
                r,
            ),
            HandleMsg::Burn { amount } => burn_spec(
                kv_of(*old(store)),
                kv_of(*final(store)),
                old(state).accounts@,
                final(state).accounts@,
                env.message.sender@,
                amount@,
                r,
            ),
            HandleMsg::Mint { recipient, amount } => mint_spec(
                kv_of(*old(store)),
                kv_of(*final(store)),
                old(state).accounts@,
                final(state).accounts@,
                env.message.sender@,
                old(state).minter@,
                recipient@,
                amount@,
                r,
            ),
        },
{
    match msg {
        HandleMsg::Approve { spender, amount } => try_approve(
            store,
            state,
            env,
            &spender,
            amount.as_str(),
        ),
        HandleMsg::Transfer { recipient, amount } => try_transfer(
            store,
            state,
            env,
            &recipient,
            amount.as_str(),
        ),
        HandleMsg::TransferFrom { owner, recipient, amount } => try_transfer_from(
            store,
            state,
            env,
            &owner,
            &recipient,
            amount.as_str(),
        ),
        HandleMsg::Burn { amount } => try_burn(store, state, env, amount.as_str()),
        HandleMsg::Mint { recipient, amount } => try_mint(
            store,
            state,
            env,
            &recipient,
            amount.as_str(),
        ),
    }
}

/// Law: conservation. In a well-formed ledger the stored total supply
/// equals the sum of all balances; every handler of this module both
/// requires and re-establishes well-formedness.
pub proof fn lemma_conservation(kv: Kv, accounts: Seq<Seq<char>>)
    requires
        ledger_inv(kv, accounts),
    ensures
        supply_of(kv) == sum_balances(kv, accounts),
{
}

/// Law: authorization. A mint whose caller is not the recorded minter
/// is always rejected and leaves the supply and every balance
/// unchanged.
pub proof fn lemma_mint_authorization(
    kv0: Kv,
    kv1: Kv,
    acc0: Seq<Seq<char>>,
    acc1: Seq<Seq<char>>,
    sender: Seq<char>,
    minter: Seq<char>,
    recipient: Seq<char>,
    amount: Seq<char>,
    r: Result<HandleResponse, Error>,
)
    requires
        mint_spec(kv0, kv1, acc0, acc1, sender, minter, recipient, amount, r),
        sender != minter,
    ensures
        r is Err,
        kv1 == kv0,
        supply_of(kv1) == supply_of(kv0),
        forall|a: Seq<char>| #[trigger] balance_of(kv1, a) == balance_of(kv0, a),
        valid_amount(amount) ==> r == Err::<HandleResponse, Error>(Error::Unauthorized),
{
}

/// Law: an approval overwrites the allowance — it never adds to it.
/// The stored allowance after a successful approval is exactly the
/// approved amount, whatever it was before.
pub proof fn lemma_approve_overwrites(
    kv0: Kv,
    kv1: Kv,
    acc0: Seq<Seq<char>>,
    acc1: Seq<Seq<char>>,
    sender: Seq<char>,
    spender: Seq<char>,
    amount: Seq<char>,
    r: Result<HandleResponse, Error>,
)
    requires
        approve_spec(kv0, kv1, acc0, acc1, sender, spender, amount, r),
        r is Ok,
    ensures
        allowance_of(kv1, sender, spender) == dec_val(amount),
{
}

/// Law: a delegated transfer never spends more than the allowance at
/// call time, and debits exactly what it spends.
pub proof fn lemma_transfer_from_bounded(
    kv0: Kv,
    kv1: Kv,
    acc0: Seq<Seq<char>>,
    acc1: Seq<Seq<char>>,
    spender: Seq<char>,
    owner: Seq<char>,
    recipient: Seq<char>,
    amount: Seq<char>,
    r: Result<HandleResponse, Error>,
)
    requires
        transfer_from_spec(kv0, kv1, acc0, acc1, spender, owner, recipient, amount, r),
        r is Ok,
    ensures
        dec_val(amount) <= allowance_of(kv0, owner, spender),
        allowance_of(kv1, owner, spender) == allowance_of(kv0, owner, spender) - dec_val(amount),
{
}

/// The four configuration keys are pairwise distinct.
proof fn lemma_distinct_config_keys()
    ensures
        name_key() != symbol_key(),
        name_key() != decimals_key(),
        name_key() != supply_key(),
        symbol_key() != decimals_key(),
        symbol_key() != supply_key(),
        decimals_key() != supply_key(),
{
    if name_key() == symbol_key() {
        lemma_namespaced_key_injective(
            ns_config(),
            crate::storage::key_name(),
            ns_config(),
            crate::storage::key_symbol(),
        );
        assert(crate::storage::key_name().len() != crate::storage::key_symbol().len());
    }
    if name_key() == decimals_key() {
        lemma_namespaced_key_injective(
            ns_config(),
            crate::storage::key_name(),
            ns_config(),
            crate::storage::key_decimals(),
        );
        assert(crate::storage::key_name().len() != crate::storage::key_decimals().len());
    }
    if name_key() == supply_key() {
        lemma_namespaced_key_injective(
            ns_config(),
            crate::storage::key_name(),
            ns_config(),
            crate::storage::key_total_supply(),
        );
        assert(crate::storage::key_name().len() != crate::storage::key_total_supply().len());
    }
    if symbol_key() == decimals_key() {
        lemma_namespaced_key_injective(
            ns_config(),
            crate::storage::key_symbol(),
            ns_config(),
            crate::storage::key_decimals(),
        );
        assert(crate::storage::key_symbol().len() != crate::storage::key_decimals().len());
    }
    if symbol_key() == supply_key() {
        lemma_namespaced_key_injective(
            ns_config(),
            crate::storage::key_symbol(),
            ns_config(),
            crate::storage::key_total_supply(),
        );
        assert(crate::storage::key_symbol().len() != crate::storage::key_total_supply().len());
    }
    if decimals_key() == supply_key() {
        lemma_namespaced_key_injective(
            ns_config(),
            crate::storage::key_decimals(),
            ns_config(),
            crate::storage::key_total_supply(),
        );
        assert(crate::storage::key_decimals().len() != crate::storage::key_total_supply().len());
    }
}

/// Writes one configuration entry, leaving balances, allowances and
/// their sums untouched.
fn kv_set_config(
    store: &mut MemoryStorage,
    Ghost(accounts): Ghost<Seq<Seq<char>>>,
    key: &Vec<u8>,
    Ghost(spec_key): Ghost<Seq<u8>>,
    value: &[u8],
)
    requires
        key@ == spec_key,
        exists|k: Seq<u8>| spec_key == namespaced_key(ns_config(), k),
        value@.len() > 0,
        balances_readable(kv_of(*old(store))),
        allowances_readable(kv_of(*old(store))),
        accounts_cover(kv_of(*old(store)), accounts),
    ensures
        kv_of(*final(store)) == kv_of(*old(store)).insert(spec_key, value@),
        balances_readable(kv_of(*final(store))),
        allowances_readable(kv_of(*final(store))),
        accounts_cover(kv_of(*final(store)), accounts),
        sum_balances(kv_of(*final(store)), accounts) == sum_balances(kv_of(*old(store)), accounts),
        forall|a: Seq<char>| #[trigger]
            balance_of(kv_of(*final(store)), a) == balance_of(kv_of(*old(store)), a),
{
    crate::storage::kv_set(store, key.as_slice(), value);
    proof {
        let k = choose|k: Seq<u8>| spec_key == namespaced_key(ns_config(), k);
        assert forall|a: Seq<char>| spec_key != #[trigger] balance_key(a) by {
            lemma_config_key_distinct(k, a, a, a);
        }
        assert forall|o: Seq<char>, s: Seq<char>| spec_key != #[trigger] allowance_key(o, s) by {
            lemma_config_key_distinct(k, o, o, s);
        }
        lemma_nonbalance_write(kv_of(*old(store)), accounts, spec_key, value@);
        assert forall|o2: Seq<char>, s2: Seq<char>| #[trigger]
            allowance_ok(kv_of(*final(store)), o2, s2) by {
            assert(allowance_ok(kv_of(*old(store)), o2, s2));
        }
    }
}

} // verus!
