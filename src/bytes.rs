//! Little-endian byte encodings of unsigned integers.

use vstd::prelude::*;

verus! {

/// The first `n` little-endian bytes of `x`.
pub open spec fn le_bytes(x: nat, n: nat) -> Seq<u8>
    decreases n,
{
    if n == 0 {
        Seq::empty()
    } else {
        seq![(x % 256) as u8] + le_bytes(x / 256, (n - 1) as nat)
    }
}

/// The number that the bytes `s` stand for, least significant byte first.
pub open spec fn le_value(s: Seq<u8>) -> nat
    decreases s.len(),
{
    if s.len() == 0 {
        0
    } else {
        s[0] as nat + 256 * le_value(s.drop_first())
    }
}

pub proof fn lemma_le_value_bound(s: Seq<u8>)
    ensures
        le_value(s) < vstd::arithmetic::power::pow(256, s.len()),
    decreases s.len(),
{
    vstd::arithmetic::power::lemma_pow_positive(256, s.len());
    if s.len() > 0 {
        lemma_le_value_bound(s.drop_first());
        vstd::arithmetic::power::lemma_pow_adds(256, 1, (s.len() - 1) as nat);
        vstd::arithmetic::power::lemma_pow1(256);
        let p = vstd::arithmetic::power::pow(256, (s.len() - 1) as nat);
        let v = le_value(s.drop_first());
        assert(s[0] as nat + 256 * v < 256 * p) by (nonlinear_arith)
            requires
                v < p,
                s[0] < 256,
        ;
    }
}

/// Appends the first `n` little-endian bytes of `x` to `out`.
pub(crate) fn push_le_bytes(out: &mut Vec<u8>, x: u128, n: usize)
    ensures
        final(out)@ == old(out)@ + le_bytes(x as nat, n as nat),
{
    let mut v: u128 = x;
    let mut i: usize = 0;
    while i < n
        invariant
            i <= n,
            out@ + le_bytes(v as nat, (n - i) as nat) == old(out)@ + le_bytes(x as nat, n as nat),
        decreases n - i,
    {
        let ghost before = out@;
        out.push((v % 256) as u8);
        assert(le_bytes(v as nat, (n - i) as nat) == seq![(v % 256) as u8] + le_bytes(
            (v / 256) as nat,
            (n - i - 1) as nat,
        ));
        assert(out@ + le_bytes((v / 256) as nat, (n - i - 1) as nat) =~= before + le_bytes(
            v as nat,
            (n - i) as nat,
        ));
        v = v / 256;
        i = i + 1;
    }
}

/// Appends the bytes of `b` to `out`.
pub(crate) fn push_all(out: &mut Vec<u8>, b: &[u8])
    ensures
        final(out)@ == old(out)@ + b@,
{
    let mut i: usize = 0;
    while i < b.len()
        invariant
            i <= b@.len(),
            out@ == old(out)@ + b@.take(i as int),
        decreases b@.len() - i,
    {
        out.push(b[i]);
        assert(b@.take(i as int + 1) =~= b@.take(i as int).push(b@[i as int]));
        i = i + 1;
    }
    assert(b@.take(i as int) =~= b@);
}

/// Reads a `u64` from the first eight bytes of `b`, least significant first.
pub(crate) fn u64_from_le(b: &Vec<u8>) -> (r: u64)
    requires
        b@.len() >= 8,
    ensures
        r as nat == le_value(b@.take(8)),
{
    let mut acc: u64 = 0;
    let mut i: usize = 8;
    while i > 0
        invariant
            i <= 8,
            b@.len() >= 8,
            acc as nat == le_value(b@.subrange(i as int, 8)),
        decreases i,
    {
        let ghost tail = b@.subrange(i as int, 8);
        proof {
            lemma_le_value_bound(tail);
            vstd::arithmetic::power::lemma_pow_increases(256, tail.len(), 7);
            vstd::arithmetic::power::lemma_pow_adds(256, 7, 1);
            vstd::arithmetic::power::lemma_pow1(256);
            assert(vstd::arithmetic::power::pow(256, 8) == 0x1_0000_0000_0000_0000) by {
                vstd::arithmetic::power::lemma_pow_adds(256, 4, 4);
                vstd::arithmetic::power::lemma_pow_adds(256, 2, 2);
                vstd::arithmetic::power::lemma_pow_adds(256, 1, 1);
                vstd::arithmetic::power::lemma_pow1(256);
                let p2 = vstd::arithmetic::power::pow(256, 2);
                let p4 = vstd::arithmetic::power::pow(256, 4);
                let p8 = vstd::arithmetic::power::pow(256, 8);
                assert(p2 == 65536);
                assert(p4 == 0x1_0000_0000) by (nonlinear_arith)
                    requires
                        p2 == 65536,
                        p4 == p2 * p2,
                ;
                assert(p8 == 0x1_0000_0000_0000_0000) by (nonlinear_arith)
                    requires
                        p4 == 0x1_0000_0000,
                        p8 == p4 * p4,
                ;
            }
            let p7 = vstd::arithmetic::power::pow(256, 7);
            assert(acc * 256 + 255 < 0x1_0000_0000_0000_0000) by (nonlinear_arith)
                requires
                    acc < p7,
                    p7 * 256 == 0x1_0000_0000_0000_0000,
            ;
        }
        acc = acc * 256 + b[i - 1] as u64;
        i = i - 1;
        assert(b@.subrange(i as int, 8).drop_first() =~= tail);
    }
    assert(b@.subrange(0, 8) =~= b@.take(8));
    acc
}

} // verus!
