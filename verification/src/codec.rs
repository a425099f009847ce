//! Fixed-width big-endian integer encoding and decimal-string conversion.
//!
//! Stored counters (balances, allowances, supply) are kept as 16-byte
//! big-endian values; amounts on the wire travel as decimal strings.
//! `be_val`, `be_bytes`, `dec_of` and `dec_val` are the mathematical
//! meanings the executable conversions are proved against.

use vstd::prelude::*;

verus! {

use vstd::arithmetic::div_mod::lemma_fundamental_div_mod;
use vstd::arithmetic::div_mod::lemma_multiply_divide_lt;
use vstd::arithmetic::mul::lemma_mul_inequality;
use crate::error::Error;

/// 256 raised to the power `n`: how many values `n` bytes can hold.
pub open spec fn pow256(n: nat) -> nat
    decreases n,
{
    if n == 0 {
        1
    } else {
        256 * pow256((n - 1) as nat)
    }
}

/// The unsigned integer a big-endian byte sequence denotes.
pub open spec fn be_val(s: Seq<u8>) -> nat
    decreases s.len(),
{
    if s.len() == 0 {
        0
    } else {
        be_val(s.drop_last()) * 256 + (s.last() as nat)
    }
}

/// The canonical `len`-byte big-endian encoding of `v`.
pub open spec fn be_bytes(v: nat, len: nat) -> Seq<u8>
    decreases len,
{
    if len == 0 {
        Seq::empty()
    } else {
        be_bytes(v / 256, (len - 1) as nat).push((v % 256) as u8)
    }
}

pub proof fn lemma_be_bytes_len(v: nat, len: nat)
    ensures
        be_bytes(v, len).len() == len,
    decreases len,
{
    if len > 0 {
        lemma_be_bytes_len(v / 256, (len - 1) as nat);
    }
}

/// An `n`-byte sequence denotes a value below `256^n`.
pub proof fn lemma_be_val_bound(s: Seq<u8>)
    ensures
        be_val(s) < pow256(s.len()),
    decreases s.len(),
{
    if s.len() > 0 {
        let prefix = s.drop_last();
        lemma_be_val_bound(prefix);
        assert(be_val(prefix) <= pow256(prefix.len()) - 1);
        lemma_mul_inequality(be_val(prefix) as int, pow256(prefix.len()) - 1, 256);
        assert(be_val(s) <= (pow256(prefix.len()) - 1) * 256 + 255);
    }
}

/// Decoding the canonical encoding of a value below `256^len` gives
/// the value back.
pub proof fn lemma_be_val_of_be_bytes(v: nat, len: nat)
    requires
        v < pow256(len),
    ensures
        be_val(be_bytes(v, len)) == v,
    decreases len,
{
    if len == 0 {
    } else {
        let b = be_bytes(v, len);
        lemma_be_bytes_len(v / 256, (len - 1) as nat);
        assert(b.drop_last() =~= be_bytes(v / 256, (len - 1) as nat));
        assert(v < 256 * pow256((len - 1) as nat));
        lemma_multiply_divide_lt(v as int, 256, pow256((len - 1) as nat) as int);
        lemma_be_val_of_be_bytes(v / 256, (len - 1) as nat);
        lemma_fundamental_div_mod(v as int, 256);
    }
}

/// The width of sixteen bytes is exactly the range of `u128`.
pub proof fn lemma_pow256_16()
    ensures
        pow256(16) == 0x100000000000000000000000000000000,
{
    reveal_with_fuel(pow256, 17);
}

pub proof fn lemma_pow256_increases(a: nat, b: nat)
    requires
        a <= b,
    ensures
        pow256(a) <= pow256(b),
    decreases b,
{
    if a < b {
        lemma_pow256_increases(a, (b - 1) as nat);
        assert(pow256((b - 1) as nat) <= 256 * pow256((b - 1) as nat));
    }
}

/// Encodes `v` as exactly 16 big-endian bytes.
pub fn u128_to_be_bytes(v: u128) -> (b: Vec<u8>)
    ensures
        b@ == be_bytes(v as nat, 16),
        b@.len() == 16,
        be_val(b@) == v as nat,
{
    let b = be_bytes_exec(v, 16);
    proof {
        lemma_pow256_16();
        lemma_be_bytes_len(v as nat, 16);
        lemma_be_val_of_be_bytes(v as nat, 16);
    }
    b
}

pub(crate) fn be_bytes_exec(v: u128, len: usize) -> (b: Vec<u8>)
    ensures
        b@ == be_bytes(v as nat, len as nat),
    decreases len,
{
    if len == 0 {
        let b: Vec<u8> = Vec::new();
        assert(b@ =~= be_bytes(v as nat, 0));
        b
    } else {
        let mut b = be_bytes_exec(v / 256, len - 1);
        b.push((v % 256) as u8);
        assert(b@ =~= be_bytes(v as nat, len as nat));
        b
    }
}

/// Reads a 16-byte big-endian value. Any other width is storage
/// corruption and is rejected.
pub fn bytes_to_u128(data: &[u8]) -> (r: Result<u128, Error>)
    ensures
        match r {
            Ok(v) => data@.len() == 16 && v as nat == be_val(data@),
            Err(e) => data@.len() != 16 && e == Error::CorruptData,
        },
{
    if data.len() != 16 {
        return Err(Error::CorruptData);
    }
    let ghost s = data@;
    let mut acc: u128 = 0;
    let mut i: usize = 0;
    proof {
        assert(s.subrange(0, 0) =~= Seq::<u8>::empty());
        lemma_pow256_16();
    }
    while i < 16
        invariant
            data@ == s,
            s.len() == 16,
            i <= 16,
            acc as nat == be_val(s.subrange(0, i as int)),
            (acc as nat) < pow256(i as nat),
            pow256(16) == 0x100000000000000000000000000000000,
        decreases 16 - i,
    {
        let d = data[i];
        proof {
            let prefix = s.subrange(0, i as int);
            let next = s.subrange(0, i as int + 1);
            assert(next.drop_last() =~= prefix);
            assert(next.last() == s[i as int]);
            lemma_pow256_increases((i + 1) as nat, 16);
            assert(256 * pow256(i as nat) == pow256((i + 1) as nat));
            lemma_mul_inequality(acc as int, pow256(i as nat) - 1, 256);
        }
        acc = acc * 256 + (d as u128);
        i = i + 1;
    }
    proof {
        assert(s.subrange(0, 16) =~= s);
    }
    Ok(acc)
}

/// The decimal digit character for `d` below ten.
pub open spec fn dec_digit(d: nat) -> char {
    if d == 0 {
        '0'
    } else if d == 1 {
        '1'
    } else if d == 2 {
        '2'
    } else if d == 3 {
        '3'
    } else if d == 4 {
        '4'
    } else if d == 5 {
        '5'
    } else if d == 6 {
        '6'
    } else if d == 7 {
        '7'
    } else if d == 8 {
        '8'
    } else {
        '9'
    }
}

/// The decimal representation of `n`, most significant digit first,
/// with no leading zeroes (a single zero for zero itself).
pub open spec fn dec_of(n: nat) -> Seq<char>
    decreases n,
{
    if n < 10 {
        seq![dec_digit(n)]
    } else {
        dec_of(n / 10).push(dec_digit(n % 10))
    }
}

fn digit_string(d: u8) -> (s: String)
    requires
        d < 10,
    ensures
        s@ =~= seq![dec_digit(d as nat)],
{
    proof {
        reveal_strlit("0");
        reveal_strlit("1");
        reveal_strlit("2");
        reveal_strlit("3");
        reveal_strlit("4");
        reveal_strlit("5");
        reveal_strlit("6");
        reveal_strlit("7");
        reveal_strlit("8");
        reveal_strlit("9");
    }
    if d == 0 {
        String::from_str("0")
    } else if d == 1 {
        String::from_str("1")
    } else if d == 2 {
        String::from_str("2")
    } else if d == 3 {
        String::from_str("3")
    } else if d == 4 {
        String::from_str("4")
    } else if d == 5 {
        String::from_str("5")
    } else if d == 6 {
        String::from_str("6")
    } else if d == 7 {
        String::from_str("7")
    } else if d == 8 {
        String::from_str("8")
    } else {
        String::from_str("9")
    }
}

/// Renders `n` in decimal.
pub fn u128_to_dec_string(n: u128) -> (s: String)
    ensures
        s@ == dec_of(n as nat),
    decreases n,
{
    if n < 10 {
        let s = digit_string(n as u8);
        assert(s@ =~= dec_of(n as nat));
        s
    } else {
        let mut s = u128_to_dec_string(n / 10);
        let d = digit_string((n % 10) as u8);
        s.append(d.as_str());
        assert(s@ =~= dec_of(n as nat));
        s
    }
}

/// Relies on `String::push`: appends exactly the one character.
#[verifier::external_body]
pub(crate) fn push_char(s: &mut String, c: char)
    ensures
        final(s)@ == old(s)@.push(c),
{
    s.push(c)
}

/// Renders `n` in decimal.
pub fn u64_to_dec_string(n: u64) -> (s: String)
    ensures
        s@ == dec_of(n as nat),
{
    u128_to_dec_string(n as u128)
}

/// Whether `c` is an ASCII decimal digit.
pub open spec fn is_dec_digit(c: char) -> bool {
    48 <= c as u32 <= 57
}

/// The value of a decimal digit character.
pub open spec fn digit_val(c: char) -> nat {
    (c as u32 - 48) as nat
}

/// Whether every character of `s` is a decimal digit.
pub open spec fn all_dec_digits(s: Seq<char>) -> bool {
    forall|i: int| 0 <= i < s.len() ==> is_dec_digit(#[trigger] s[i])
}

/// The number a sequence of decimal digit characters denotes.
pub open spec fn dec_val(s: Seq<char>) -> nat
    decreases s.len(),
{
    if s.len() == 0 {
        0
    } else {
        dec_val(s.drop_last()) * 10 + digit_val(s.last())
    }
}

/// A prefix of a digit string never denotes more than the whole string.
proof fn lemma_dec_val_prefix_le(s: Seq<char>, j: int)
    requires
        0 <= j <= s.len(),
    ensures
        dec_val(s.take(j)) <= dec_val(s),
    decreases s.len() - j,
{
    if j == s.len() {
        assert(s.take(j) =~= s);
    } else {
        lemma_dec_val_prefix_le(s, j + 1);
        let t = s.take(j + 1);
        assert(t.drop_last() =~= s.take(j));
        assert(dec_val(s.take(j)) <= dec_val(s.take(j)) * 10 + digit_val(t.last()));
    }
}

/// Whether a wire amount parses: non-empty, all decimal digits, and
/// within 128 bits.
pub open spec fn valid_amount(s: Seq<char>) -> bool {
    s.len() > 0 && all_dec_digits(s) && dec_val(s) <= u128::MAX
}

/// Parses a non-negative base-10 integer. Rejects the empty string,
/// any non-digit character, and values that overflow 128 bits, with
/// `InvalidAmount`; accepts exactly the rest.
pub fn parse_u128(source: &str) -> (r: Result<u128, Error>)
    ensures
        match r {
            Ok(v) => source@.len() > 0 && all_dec_digits(source@) && v as nat == dec_val(
                source@,
            ),
            Err(e) => e == Error::InvalidAmount && (source@.len() == 0 || !all_dec_digits(source@)
                || dec_val(source@) > u128::MAX),
        },
{
    let n = source.unicode_len();
    if n == 0 {
        return Err(Error::InvalidAmount);
    }
    let ghost s = source@;
    let mut acc: u128 = 0;
    let mut i: usize = 0;
    proof {
        assert(s.take(0) =~= Seq::<char>::empty());
    }
    while i < n
        invariant
            source@ == s,
            s.len() == n,
            i <= n,
            acc as nat == dec_val(s.take(i as int)),
            forall|j: int| 0 <= j < i ==> is_dec_digit(#[trigger] s[j]),
        decreases n - i,
    {
        let c = source.get_char(i);
        let u = c as u32;
        if u < 48 || u > 57 {
            return Err(Error::InvalidAmount);
        }
        let d = (u - 48) as u128;
        proof {
            let prefix = s.take(i as int);
            let next = s.take(i as int + 1);
            assert(next.drop_last() =~= prefix);
            assert(next.last() == s[i as int]);
        }
        if acc > (u128::MAX - d) / 10 {
            proof {
                // acc * 10 + d exceeds u128::MAX, so the whole string does too.
                lemma_fundamental_div_mod((u128::MAX - d) as int, 10);
                assert(acc as int * 10 > (u128::MAX - d) as int) by {
                    lemma_mul_inequality(((u128::MAX - d) / 10 + 1) as int, acc as int, 10);
                };
                lemma_dec_val_prefix_le(s, i as int + 1);
            }
            return Err(Error::InvalidAmount);
        }
        proof {
            assert(acc as int * 10 <= (u128::MAX - d) as int) by {
                lemma_mul_inequality(acc as int, ((u128::MAX - d) / 10) as int, 10);
                lemma_fundamental_div_mod((u128::MAX - d) as int, 10);
            };
        }
        acc = acc * 10 + d;
        i = i + 1;
    }
    proof {
        assert(s.take(n as int) =~= s);
    }
    Ok(acc)
}

} // verus!
