//! The storage accessor: typed reads and writes over a namespaced
//! key-value store.
//!
//! The store itself is `cosmwasm_std::MemoryStorage`; its contents are
//! named by the spec function `kv_of` and reached through two trusted
//! wrappers. Everything above that — key namespacing, the fixed-width
//! integer representation, and the fact that distinct accounts can never
//! collide on a key — is verified.

use vstd::prelude::*;

verus! {

use cosmwasm_std::MemoryStorage;
use crate::codec::be_val;
use crate::codec::be_bytes;
use crate::codec::lemma_pow256_16;
use crate::codec::lemma_be_bytes_len;
use crate::codec::lemma_be_val_of_be_bytes;
use crate::codec::u128_to_be_bytes;
use crate::codec::bytes_to_u128;
use crate::error::Error;
use vstd::string::StringSliceAdditionalSpecFns;
use vstd::utf8::encode_utf8;
use vstd::utf8::encode_utf8_decode_utf8;

#[verifier::external_type_specification]
#[verifier::external_body]
pub struct ExMemoryStorage(MemoryStorage);

/// The key-value contents of a `MemoryStorage`.
pub uninterp spec fn kv_of(store: MemoryStorage) -> Map<Seq<u8>, Seq<u8>>;

/// A store with no entries.
pub open spec fn kv_empty() -> Map<Seq<u8>, Seq<u8>> {
    Map::empty()
}

/// Relies on `cosmwasm_std::MemoryStorage::new`: a fresh store holds
/// no entries.
#[verifier::external_body]
pub(crate) fn kv_new() -> (store: MemoryStorage)
    ensures
        kv_of(store) == kv_empty(),
{
    MemoryStorage::new()
}

/// Relies on `cosmwasm_std::MemoryStorage::get`: returns a copy of the
/// value stored under the key, or `None` when the key is absent.
#[verifier::external_body]
pub(crate) fn kv_get(store: &MemoryStorage, key: &[u8]) -> (r: Option<Vec<u8>>)
    ensures
        match r {
            Some(v) => kv_of(*store).dom().contains(key@) && v@ == kv_of(*store)[key@],
            None => !kv_of(*store).dom().contains(key@),
        },
{
    cosmwasm_std::Storage::get(store, key)
}

/// Relies on `cosmwasm_std::MemoryStorage::set`: inserts or overwrites
/// the value under the key. The callee rejects an empty value, so empty
/// values are excluded here.
#[verifier::external_body]
pub(crate) fn kv_set(store: &mut MemoryStorage, key: &[u8], value: &[u8])
    requires
        value@.len() > 0,
    ensures
        kv_of(*final(store)) == kv_of(*old(store)).insert(key@, value@),
{
    cosmwasm_std::Storage::set(store, key, value)
}

/// Account identifiers are keyed by their UTF-8 bytes; UTF-8 decoding
/// its own encoding gives the characters back, so distinct identifiers
/// give distinct keys.
pub proof fn lemma_utf8_injective(a: Seq<char>, b: Seq<char>)
    requires
        encode_utf8(a) == encode_utf8(b),
    ensures
        a == b,
{
    encode_utf8_decode_utf8(a);
    encode_utf8_decode_utf8(b);
}

/// A namespace segment, prefixed by its two-byte big-endian length.
pub open spec fn length_prefixed(ns: Seq<u8>) -> Seq<u8> {
    seq![((ns.len() / 256) % 256) as u8, (ns.len() % 256) as u8] + ns
}

/// A key under a namespace: the length-prefixed namespace, then the key.
pub open spec fn namespaced_key(ns: Seq<u8>, key: Seq<u8>) -> Seq<u8> {
    length_prefixed(ns) + key
}

/// Namespacing partitions keys: equal namespaced keys come from the
/// same namespace and the same key.
pub proof fn lemma_namespaced_key_injective(ns1: Seq<u8>, k1: Seq<u8>, ns2: Seq<u8>, k2: Seq<u8>)
    requires
        ns1.len() < 65536,
        ns2.len() < 65536,
        namespaced_key(ns1, k1) == namespaced_key(ns2, k2),
    ensures
        ns1 == ns2,
        k1 == k2,
{
    let a = namespaced_key(ns1, k1);
    let b = namespaced_key(ns2, k2);
    vstd::arithmetic::div_mod::lemma_fundamental_div_mod(ns1.len() as int, 256);
    vstd::arithmetic::div_mod::lemma_fundamental_div_mod(ns2.len() as int, 256);
    assert(a[0] == b[0] && a[1] == b[1]);
    assert(ns1.len() / 256 < 256 && ns2.len() / 256 < 256) by {
        vstd::arithmetic::div_mod::lemma_multiply_divide_lt(ns1.len() as int, 256, 256);
        vstd::arithmetic::div_mod::lemma_multiply_divide_lt(ns2.len() as int, 256, 256);
    };
    assert(ns1.len() == ns2.len());
    assert(ns1 =~= a.subrange(2, 2 + ns1.len() as int));
    assert(ns2 =~= b.subrange(2, 2 + ns2.len() as int));
    assert(k1 =~= a.subrange(2 + ns1.len() as int, a.len() as int));
    assert(k2 =~= b.subrange(2 + ns2.len() as int, b.len() as int));
}

/// The namespace of balance entries.
pub open spec fn ns_balances() -> Seq<u8> {
    seq![98u8, 97u8, 108u8, 97u8, 110u8, 99u8, 101u8, 115u8]
}

/// The namespace of allowance entries.
pub open spec fn ns_allowances() -> Seq<u8> {
    seq![97u8, 108u8, 108u8, 111u8, 119u8, 97u8, 110u8, 99u8, 101u8, 115u8]
}

/// The namespace of the ledger configuration.
pub open spec fn ns_config() -> Seq<u8> {
    seq![99u8, 111u8, 110u8, 102u8, 105u8, 103u8]
}

/// The key of an account's balance entry.
pub open spec fn balance_key(addr: Seq<char>) -> Seq<u8> {
    namespaced_key(ns_balances(), encode_utf8(addr))
}

/// The key of an allowance entry, nested under the owner.
pub open spec fn allowance_key(owner: Seq<char>, spender: Seq<char>) -> Seq<u8> {
    namespaced_key(ns_allowances(), length_prefixed(encode_utf8(owner)) + encode_utf8(spender))
}

/// The configuration key of the total supply counter.
pub open spec fn key_total_supply() -> Seq<u8> {
    seq![116u8, 111u8, 116u8, 97u8, 108u8, 95u8, 115u8, 117u8, 112u8, 112u8, 108u8, 121u8]
}

/// The configuration key of the token name.
pub open spec fn key_name() -> Seq<u8> {
    seq![110u8, 97u8, 109u8, 101u8]
}

/// The configuration key of the ticker symbol.
pub open spec fn key_symbol() -> Seq<u8> {
    seq![115u8, 121u8, 109u8, 98u8, 111u8, 108u8]
}

/// The configuration key of the number of decimals.
pub open spec fn key_decimals() -> Seq<u8> {
    seq![100u8, 101u8, 99u8, 105u8, 109u8, 97u8, 108u8, 115u8]
}

/// The key of the total supply counter.
pub open spec fn supply_key() -> Seq<u8> {
    namespaced_key(ns_config(), key_total_supply())
}

/// The key of the stored token name.
pub open spec fn name_key() -> Seq<u8> {
    namespaced_key(ns_config(), key_name())
}

/// The key of the stored ticker symbol.
pub open spec fn symbol_key() -> Seq<u8> {
    namespaced_key(ns_config(), key_symbol())
}

/// The key of the stored number of decimals.
pub open spec fn decimals_key() -> Seq<u8> {
    namespaced_key(ns_config(), key_decimals())
}

pub(crate) fn balance_key_vec(addr: &str) -> (r: Vec<u8>)
    ensures
        r@ == balance_key(addr@),
{
    let mut r: Vec<u8> = Vec::new();
    r.push(0u8);
    r.push(8u8);
    r.extend_from_slice(&[98u8, 97u8, 108u8, 97u8, 110u8, 99u8, 101u8, 115u8]);
    r.extend_from_slice(addr.as_bytes());
    proof {
        assert(r@ =~= balance_key(addr@));
    }
    r
}

pub(crate) fn allowance_key_vec(owner: &str, spender: &str) -> (r: Vec<u8>)
    requires
        encode_utf8(owner@).len() < 65536,
    ensures
        r@ == allowance_key(owner@, spender@),
{
    let mut r: Vec<u8> = Vec::new();
    r.push(0u8);
    r.push(10u8);
    r.extend_from_slice(&[97u8, 108u8, 108u8, 111u8, 119u8, 97u8, 110u8, 99u8, 101u8, 115u8]);
    let ob = owner.as_bytes();
    let obl = ob.len();
    r.push((obl / 256) as u8);
    r.push((obl % 256) as u8);
    r.extend_from_slice(ob);
    r.extend_from_slice(spender.as_bytes());
    proof {
        assert(r@ =~= allowance_key(owner@, spender@));
    }
    r
}

pub(crate) fn supply_key_vec() -> (r: Vec<u8>)
    ensures
        r@ == supply_key(),
{
    let mut r: Vec<u8> = Vec::new();
    r.push(0u8);
    r.push(6u8);
    r.extend_from_slice(&[99u8, 111u8, 110u8, 102u8, 105u8, 103u8]);
    r.extend_from_slice(
        &[116u8, 111u8, 116u8, 97u8, 108u8, 95u8, 115u8, 117u8, 112u8, 112u8, 108u8, 121u8],
    );
    proof {
        assert(r@ =~= supply_key());
    }
    r
}

pub(crate) fn name_key_vec() -> (r: Vec<u8>)
    ensures
        r@ == name_key(),
{
    let mut r: Vec<u8> = Vec::new();
    r.push(0u8);
    r.push(6u8);
    r.extend_from_slice(&[99u8, 111u8, 110u8, 102u8, 105u8, 103u8]);
    r.extend_from_slice(&[110u8, 97u8, 109u8, 101u8]);
    proof {
        assert(r@ =~= name_key());
    }
    r
}

pub(crate) fn symbol_key_vec() -> (r: Vec<u8>)
    ensures
        r@ == symbol_key(),
{
    let mut r: Vec<u8> = Vec::new();
    r.push(0u8);
    r.push(6u8);
    r.extend_from_slice(&[99u8, 111u8, 110u8, 102u8, 105u8, 103u8]);
    r.extend_from_slice(&[115u8, 121u8, 109u8, 98u8, 111u8, 108u8]);
    proof {
        assert(r@ =~= symbol_key());
    }
    r
}

pub(crate) fn decimals_key_vec() -> (r: Vec<u8>)
    ensures
        r@ == decimals_key(),
{
    let mut r: Vec<u8> = Vec::new();
    r.push(0u8);
    r.push(6u8);
    r.extend_from_slice(&[99u8, 111u8, 110u8, 102u8, 105u8, 103u8]);
    r.extend_from_slice(&[100u8, 101u8, 99u8, 105u8, 109u8, 97u8, 108u8, 115u8]);
    proof {
        assert(r@ =~= decimals_key());
    }
    r
}

/// Whether the entry under `key` can be read as a counter: absent, or
/// stored in exactly sixteen bytes.
pub open spec fn stored_ok(kv: Map<Seq<u8>, Seq<u8>>, key: Seq<u8>) -> bool {
    kv.dom().contains(key) ==> kv[key].len() == 16
}

/// The counter value stored under `key`; an absent key reads as zero.
pub open spec fn stored_val(kv: Map<Seq<u8>, Seq<u8>>, key: Seq<u8>) -> nat {
    if kv.dom().contains(key) {
        be_val(kv[key])
    } else {
        0
    }
}

/// Reads a 16-byte counter, zero when the key is absent. A stored
/// value of any other width is storage corruption.
pub fn read_u128(store: &MemoryStorage, key: &[u8]) -> (r: Result<u128, Error>)
    ensures
        match r {
            Ok(v) => stored_ok(kv_of(*store), key@) && v as nat == stored_val(kv_of(*store), key@),
            Err(e) => !stored_ok(kv_of(*store), key@) && e == Error::CorruptData,
        },
{
    match kv_get(store, key) {
        Some(data) => {
            proof {
                if kv_of(*store)[key@].len() == 16 {
                    lemma_pow256_16();
                    crate::codec::lemma_be_val_bound(kv_of(*store)[key@]);
                }
            }
            bytes_to_u128(data.as_slice())
        },
        None => Ok(0),
    }
}

/// Writes a counter as exactly sixteen big-endian bytes.
pub fn write_u128(store: &mut MemoryStorage, key: &[u8], v: u128)
    ensures
        kv_of(*final(store)) == kv_of(*old(store)).insert(key@, be_bytes(v as nat, 16)),
        stored_ok(kv_of(*final(store)), key@),
        stored_val(kv_of(*final(store)), key@) == v as nat,
{
    let data = u128_to_be_bytes(v);
    kv_set(store, key, data.as_slice());
    proof {
        lemma_be_bytes_len(v as nat, 16);
        lemma_pow256_16();
        lemma_be_val_of_be_bytes(v as nat, 16);
    }
}

/// Law: an amount written to storage and re-read yields the identical
/// value — the sixteen stored bytes decode to exactly what was written,
/// in any surrounding store contents.
pub proof fn lemma_stored_round_trip(kv: Map<Seq<u8>, Seq<u8>>, key: Seq<u8>, v: u128)
    ensures
        stored_ok(kv.insert(key, be_bytes(v as nat, 16)), key),
        stored_val(kv.insert(key, be_bytes(v as nat, 16)), key) == v as nat,
{
    lemma_pow256_16();
    lemma_be_bytes_len(v as nat, 16);
    lemma_be_val_of_be_bytes(v as nat, 16);
}

} // verus!
