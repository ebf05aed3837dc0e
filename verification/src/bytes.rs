use crate::errors::WatcherError;
use vstd::arithmetic::div_mod::lemma_fundamental_div_mod_converse;
use vstd::prelude::*;

verus! {

/// The value of a byte string read as a big-endian unsigned integer.
pub open spec fn be_val(b: Seq<u8>) -> nat
    decreases b.len(),
{
    if b.len() == 0 {
        0
    } else {
        (be_val(b.drop_last()) * 256 + b.last()) as nat
    }
}

/// The `n`-byte big-endian encoding of `x` (keeping only `x % pow256(n)`).
pub open spec fn be_bytes(x: nat, n: nat) -> Seq<u8>
    decreases n,
{
    if n == 0 {
        Seq::empty()
    } else {
        be_bytes(x / 256, (n - 1) as nat).push((x % 256) as u8)
    }
}

/// 256 raised to `n`: the number of distinct `n`-byte strings.
pub open spec fn pow256(n: nat) -> nat
    decreases n,
{
    if n == 0 {
        1
    } else {
        256 * pow256((n - 1) as nat)
    }
}

/// The big-endian value of the first half of a 32-byte hash.
pub open spec fn hi_of(h: Seq<u8>) -> nat {
    be_val(h.subrange(0, 16))
}

/// The big-endian value of the second half of a 32-byte hash.
pub open spec fn lo_of(h: Seq<u8>) -> nat {
    be_val(h.subrange(16, 32))
}

/// Powers of 256 are positive.
pub proof fn lemma_pow256_pos(n: nat)
    ensures
        pow256(n) >= 1,
    decreases n,
{
    if n > 0 {
        lemma_pow256_pos((n - 1) as nat);
    }
}

/// Powers of 256 grow with the exponent.
pub proof fn lemma_pow256_mono(a: nat, b: nat)
    requires
        a <= b,
    ensures
        pow256(a) <= pow256(b),
    decreases b,
{
    if a < b {
        lemma_pow256_mono(a, (b - 1) as nat);
        lemma_pow256_pos((b - 1) as nat);
    }
}

/// The count of 16-byte strings: 2 to the 128th.
pub proof fn lemma_pow256_16()
    ensures
        pow256(16) == 0x1_0000_0000_0000_0000_0000_0000_0000_0000,
{
    reveal_with_fuel(pow256, 17);
}

/// A big-endian value is bounded by the count of strings of its length.
pub proof fn lemma_be_val_bound(b: Seq<u8>)
    ensures
        be_val(b) < pow256(b.len()),
    decreases b.len(),
{
    if b.len() > 0 {
        let m = b.drop_last();
        lemma_be_val_bound(m);
        assert(be_val(m) * 256 + 256 <= pow256(m.len()) * 256) by (nonlinear_arith)
            requires
                be_val(m) < pow256(m.len()),
        ;
    }
}

/// Encoding the value of a byte string reproduces the string.
pub proof fn lemma_be_bytes_of_be_val(b: Seq<u8>)
    ensures
        be_bytes(be_val(b), b.len()) == b,
    decreases b.len(),
{
    if b.len() == 0 {
        assert(be_bytes(be_val(b), b.len()) =~= b);
    } else {
        let m = b.drop_last();
        lemma_be_bytes_of_be_val(m);
        let x = be_val(b);
        lemma_fundamental_div_mod_converse(x as int, 256, be_val(m) as int, b.last() as int);
        assert(be_bytes(x, b.len()) =~= b);
    }
}

/// Law: splitting a 32-byte hash into its high and low 128-bit halves and
/// re-encoding each half as 16 big-endian bytes reproduces the hash exactly.
pub proof fn lemma_split_round_trip(h: Seq<u8>)
    requires
        h.len() == 32,
    ensures
        be_bytes(hi_of(h), 16) + be_bytes(lo_of(h), 16) == h,
{
    lemma_be_bytes_of_be_val(h.subrange(0, 16));
    lemma_be_bytes_of_be_val(h.subrange(16, 32));
    assert(be_bytes(hi_of(h), 16) + be_bytes(lo_of(h), 16) =~= h);
}

/// Reads `b[start .. start + 16]` as a big-endian unsigned 128-bit integer.
pub fn be_val16(b: &Vec<u8>, start: usize) -> (r: u128)
    requires
        start + 16 <= b@.len(),
    ensures
        r as nat == be_val(b@.subrange(start as int, start as int + 16)),
{
    let blen: usize = b.len();
    let mut acc: u128 = 0;
    let mut i: usize = 0;
    while i < 16
        invariant
            start + 16 <= b@.len(),
            b@.len() == blen,
            i <= 16,
            acc as nat == be_val(b@.subrange(start as int, start as int + i as int)),
        decreases 16 - i,
    {
        proof {
            let s_i = b@.subrange(start as int, start as int + i as int);
            let s_next = b@.subrange(start as int, start as int + i as int + 1);
            assert(s_next.drop_last() =~= s_i);
            lemma_be_val_bound(s_i);
            lemma_pow256_mono(i as nat, 15);
            lemma_pow256_16();
            assert(pow256(16) == 256 * pow256(15));
        }
        acc = acc * 256 + (b[start + i] as u128);
        i = i + 1;
    }
    acc
}

/// Splits a 32-byte hash into its big-endian high and low 128-bit halves,
/// the form a circuit with a field smaller than 256 bits consumes. Any other
/// input length is rejected as `InvalidHashLength`; callers that must not
/// fail substitute the all-zero pair instead.
pub fn split_hash_to_hi_lo(hash: &Vec<u8>) -> (r: Result<(u128, u128), WatcherError>)
    ensures
        hash@.len() == 32 ==> (r matches Ok(p) && p.0 == hi_of(hash@) && p.1 == lo_of(hash@)),
        hash@.len() != 32 ==> r == Err::<(u128, u128), WatcherError>(
            WatcherError::InvalidHashLength,
        ),
{
    if hash.len() != 32 {
        return Err(WatcherError::InvalidHashLength);
    }
    let hi = be_val16(hash, 0);
    let lo = be_val16(hash, 16);
    Ok((hi, lo))
}

/// The 16-byte big-endian encoding of `x`.
pub fn u128_to_be16(x: u128) -> (v: Vec<u8>)
    ensures
        v@ == be_bytes(x as nat, 16),
        v@.len() == 16,
{
    let v = u128_to_be_rec(x, 16);
    proof {
        lemma_be_bytes_len(x as nat, 16);
    }
    v
}

pub proof fn lemma_be_bytes_len(x: nat, n: nat)
    ensures
        be_bytes(x, n).len() == n,
    decreases n,
{
    if n > 0 {
        lemma_be_bytes_len(x / 256, (n - 1) as nat);
    }
}

fn u128_to_be_rec(x: u128, n: usize) -> (v: Vec<u8>)
    ensures
        v@ == be_bytes(x as nat, n as nat),
    decreases n,
{
    if n == 0 {
        Vec::new()
    } else {
        let mut v = u128_to_be_rec(x / 256, n - 1);
        v.push((x % 256) as u8);
        v
    }
}

/// The base-10 numeral of `x`: ASCII digit bytes, most significant first,
/// a single zero digit for zero.
pub open spec fn dec_digits(x: nat) -> Seq<u8>
    decreases x,
{
    if x < 10 {
        seq![(48 + x) as u8]
    } else {
        dec_digits(x / 10).push((48 + x % 10) as u8)
    }
}

/// Renders `x` as its base-10 numeral, the wire format in which the circuit
/// consumes field elements.
pub fn u128_to_decimal(x: u128) -> (r: Vec<u8>)
    ensures
        r@ == dec_digits(x as nat),
    decreases x,
{
    if x < 10 {
        let mut v: Vec<u8> = Vec::new();
        v.push(48 + (x as u8));
        proof {
            assert(v@ =~= dec_digits(x as nat));
        }
        v
    } else {
        let mut v = u128_to_decimal(x / 10);
        v.push(48 + ((x % 10) as u8));
        v
    }
}

/// A fresh copy of a byte vector.
pub fn copy_bytes(v: &Vec<u8>) -> (r: Vec<u8>)
    ensures
        r@ == v@,
{
    let mut r: Vec<u8> = Vec::new();
    let mut i: usize = 0;
    while i < v.len()
        invariant
            i <= v@.len(),
            r@.len() == i,
            forall|j: int| 0 <= j < i ==> r@[j] == v@[j],
        decreases v@.len() - i,
    {
        r.push(v[i]);
        i = i + 1;
    }
    proof {
        assert(r@ =~= v@);
    }
    r
}

/// Byte-for-byte equality of two byte vectors.
pub fn bytes_eq(a: &Vec<u8>, b: &Vec<u8>) -> (r: bool)
    ensures
        r == (a@ == b@),
{
    if a.len() != b.len() {
        assert(a@ != b@);
        return false;
    }
    let mut i: usize = 0;
    while i < a.len()
        invariant
            i <= a@.len(),
            a@.len() == b@.len(),
            forall|j: int| 0 <= j < i ==> a@[j] == b@[j],
        decreases a@.len() - i,
    {
        if a[i] != b[i] {
            return false;
        }
        i = i + 1;
    }
    proof {
        assert(a@ =~= b@);
    }
    true
}

} // verus!
