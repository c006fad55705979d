//! Byte-string and 32-byte-word utilities shared by the synthesizer and
//! the call-data encoder.

use vstd::prelude::*;

verus! {

/// A sequence of `n` zero bytes.
pub open spec fn zero_seq(n: nat) -> Seq<u8> {
    Seq::new(n, |i: int| 0u8)
}

/// A 32-byte word holding zero, or one (last byte set).
pub open spec fn unit_word(zero: bool) -> Seq<u8> {
    if zero {
        zero_seq(32)
    } else {
        zero_seq(31).push(1u8)
    }
}

/// The `k` low-order base-256 digits of `n`, most significant first.
pub open spec fn be_bytes(n: nat, k: nat) -> Seq<u8>
    decreases k,
{
    if k == 0 {
        Seq::empty()
    } else {
        be_bytes(n / 256, (k - 1) as nat).push((n % 256) as u8)
    }
}

/// The 32-byte big-endian word encoding a length or offset.
pub open spec fn len_word(n: nat) -> Seq<u8> {
    be_bytes(n, 32)
}

/// Bytes of padding that bring `n` up to a multiple of 32.
pub open spec fn pad32(n: nat) -> nat {
    if n % 32 == 0 {
        0
    } else {
        (32 - n % 32) as nat
    }
}

/// A big-endian digit string has exactly as many bytes as requested.
pub proof fn lemma_be_bytes_len(n: nat, k: nat)
    ensures
        be_bytes(n, k).len() == k,
    decreases k,
{
    if k > 0 {
        lemma_be_bytes_len(n / 256, (k - 1) as nat);
    }
}

/// A vector of `n` zero bytes.
pub fn zero_vec(n: usize) -> (r: Vec<u8>)
    ensures
        r@ == zero_seq(n as nat),
{
    let mut r: Vec<u8> = Vec::new();
    let mut i: usize = 0;
    while i < n
        invariant
            i <= n,
            r@ == zero_seq(i as nat),
        decreases n - i,
    {
        r.push(0u8);
        proof {
            assert(zero_seq((i + 1) as nat) =~= zero_seq(i as nat).push(0u8));
        }
        i += 1;
    }
    r
}

/// A byte vector of `n` zeros with the last byte set to one (`n` > 0).
pub fn unit_tail_vec(n: usize) -> (r: Vec<u8>)
    requires
        n >= 1,
    ensures
        r@ == zero_seq((n - 1) as nat).push(1u8),
{
    let mut r = zero_vec(n - 1);
    r.push(1u8);
    r
}

/// A copy of a byte vector.
pub fn copy_bytes(v: &Vec<u8>) -> (r: Vec<u8>)
    ensures
        r@ == v@,
{
    let mut r: Vec<u8> = Vec::new();
    let mut i: usize = 0;
    let n = v.len();
    while i < n
        invariant
            i <= n,
            n == v@.len(),
            r@ == v@.take(i as int),
        decreases n - i,
    {
        r.push(v[i]);
        proof {
            assert(v@.take(i + 1) =~= v@.take(i as int).push(v@[i as int]));
        }
        i += 1;
    }
    proof {
        assert(v@.take(n as int) =~= v@);
    }
    r
}

/// The 32-byte big-endian word holding `n`.
pub fn len_word_vec(n: usize) -> (r: Vec<u8>)
    ensures
        r@ == len_word(n as nat),
{
    let mut w = zero_vec(32);
    let mut x: u64 = n as u64;
    let mut j: usize = 0;
    proof {
        assert(w@.skip(32) =~= Seq::<u8>::empty());
        lemma_be_bytes_len(n as nat, 32);
    }
    while j < 32
        invariant
            j <= 32,
            w@.len() == 32,
            be_bytes(n as nat, 32) == be_bytes(x as nat, (32 - j) as nat) + w@.skip(32 - j),
        decreases 32 - j,
    {
        let idx = 31 - j;
        let ghost oldw = w@;
        let b: u8 = (x % 256) as u8;
        w[idx] = b;
        proof {
            assert(w@ == oldw.update(idx as int, b));
            assert(w@.skip(idx as int) =~= seq![b] + oldw.skip(idx + 1));
            assert(be_bytes(x as nat, (32 - j) as nat) == be_bytes(
                (x as nat) / 256,
                (32 - (j + 1)) as nat,
            ).push(b));
            assert(be_bytes((x as nat) / 256, (32 - (j + 1)) as nat) + w@.skip(idx as int)
                =~= be_bytes(x as nat, (32 - j) as nat) + oldw.skip(32 - j));
            assert((x / 256) as nat == (x as nat) / 256);
        }
        x = x / 256;
        j += 1;
    }
    proof {
        assert(be_bytes(x as nat, 0) =~= Seq::<u8>::empty());
        assert(w@.skip(0) =~= w@);
        assert(be_bytes(n as nat, 32) =~= Seq::<u8>::empty() + w@);
        assert(Seq::<u8>::empty() + w@ =~= w@);
    }
    w
}

/// `d` padded on the right with zeros to exactly 32 bytes (truncated past
/// 32).
pub fn pad_word_vec(d: &Vec<u8>) -> (r: Vec<u8>)
    ensures
        r@ == (d@ + zero_seq(32)).take(32),
{
    let mut r = copy_bytes(d);
    if r.len() >= 32 {
        r.truncate(32);
        proof {
            assert(r@ =~= (d@ + zero_seq(32)).take(32));
        }
        return r;
    }
    let mut i = r.len();
    proof {
        assert(r@ =~= (d@ + zero_seq(32)).take(i as int));
    }
    while i < 32
        invariant
            i <= 32,
            i == r@.len(),
            d@.len() <= i,
            r@ == (d@ + zero_seq(32)).take(i as int),
        decreases 32 - i,
    {
        r.push(0u8);
        proof {
            assert((d@ + zero_seq(32)).take(i + 1) =~= (d@ + zero_seq(32)).take(i as int).push(
                0u8,
            ));
        }
        i += 1;
    }
    r
}

} // verus!
