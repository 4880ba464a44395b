//! Spec-level facts about base-256 positional decomposition of byte
//! sequences, shared by the numeric codec and the byte-decomposition codec.

use vstd::prelude::*;
use vstd::arithmetic::div_mod::{
    lemma_small_mod, lemma_mod_multiples_vanish, lemma_fundamental_div_mod,
    lemma_multiply_divide_lt,
};
use vstd::arithmetic::mul::lemma_mul_is_associative;

verus! {

/// 256 raised to the power `n`.
pub open spec fn pow256(n: nat) -> nat
    decreases n,
{
    if n == 0 {
        1
    } else {
        256 * pow256((n - 1) as nat)
    }
}

/// The natural number whose little-endian base-256 digits are `s`.
pub open spec fn le_bytes_to_nat(s: Seq<u8>) -> nat
    decreases s.len(),
{
    if s.len() == 0 {
        0
    } else {
        s[0] as nat + 256 * le_bytes_to_nat(s.skip(1))
    }
}

/// The number of values of a 128-bit limb.
pub open spec fn p128() -> nat {
    0x1_0000_0000_0000_0000_0000_0000_0000_0000nat
}

/// Comparing two double-limb values is a lexicographic comparison of the
/// (high, low) limb pairs.
pub proof fn lemma_limbs_lt(alo: nat, ahi: nat, blo: nat, bhi: nat)
    requires
        alo < p128(),
        blo < p128(),
    ensures
        (alo + ahi * p128() < blo + bhi * p128()) <==> (ahi < bhi || (ahi == bhi && alo < blo)),
{
    let p: int = p128() as int;
    assert((alo + ahi * p < blo + bhi * p) <==> (ahi < bhi || (ahi == bhi && alo < blo)))
        by (nonlinear_arith)
        requires
            alo < p,
            blo < p,
            0 < p,
    ;
}

/// The natural number whose big-endian base-256 digits are `s`.
pub open spec fn be_bytes_to_nat(s: Seq<u8>) -> nat {
    le_bytes_to_nat(s.reverse())
}

pub proof fn lemma_pow256_pos(n: nat)
    ensures
        pow256(n) >= 1,
    decreases n,
{
    if n > 0 {
        lemma_pow256_pos((n - 1) as nat);
    }
}

/// A sequence of `n` bytes denotes a value below `256^n`.
pub proof fn lemma_le_bytes_to_nat_bound(s: Seq<u8>)
    ensures
        le_bytes_to_nat(s) < pow256(s.len()),
    decreases s.len(),
{
    if s.len() == 0 {
    } else {
        lemma_le_bytes_to_nat_bound(s.skip(1));
    }
}

/// Concatenation splits a little-endian denotation into a low and a high part.
pub proof fn lemma_le_bytes_to_nat_append(a: Seq<u8>, b: Seq<u8>)
    ensures
        le_bytes_to_nat(a + b) == le_bytes_to_nat(a) + pow256(a.len()) * le_bytes_to_nat(b),
    decreases a.len(),
{
    if a.len() == 0 {
        assert(a + b =~= b);
        assert(pow256(a.len()) == 1);
        assert(le_bytes_to_nat(a) == 0);
        assert(le_bytes_to_nat(a + b) == le_bytes_to_nat(a) + pow256(a.len()) * le_bytes_to_nat(b));
    } else {
        lemma_le_bytes_to_nat_append(a.skip(1), b);
        assert((a + b).skip(1) =~= a.skip(1) + b);
        assert((a + b)[0] == a[0]);
        let p: int = pow256((a.len() - 1) as nat) as int;
        let y: int = le_bytes_to_nat(b) as int;
        let x: int = le_bytes_to_nat(a.skip(1)) as int;
        lemma_mul_is_associative(256, p, y);
        assert(le_bytes_to_nat(a + b) == a[0] + 256 * (x + p * y));
        assert(256 * (x + p * y) == 256 * x + 256 * (p * y)) by (nonlinear_arith);
        assert(le_bytes_to_nat(a) == a[0] + 256 * x);
        assert(pow256(a.len()) == 256 * p);
        assert(pow256(a.len()) * le_bytes_to_nat(b) == (256 * p) * y);
    }
}

/// `pow256(16)` is the number of values of a 128-bit integer.
pub proof fn lemma_pow256_16()
    ensures
        pow256(16) == 0x1_0000_0000_0000_0000_0000_0000_0000_0000nat,
{
    reveal_with_fuel(pow256, 17);
}

/// `pow256` is monotonic in the exponent.
pub proof fn lemma_pow256_le(a: nat, b: nat)
    requires
        a <= b,
    ensures
        pow256(a) <= pow256(b),
    decreases b,
{
    if a < b {
        lemma_pow256_le(a, (b - 1) as nat);
        lemma_pow256_pos((b - 1) as nat);
    }
}

/// Appends the 16 little-endian base-256 digits of `x` to `out`.
pub fn push_u128_le(out: &mut Vec<u8>, x: u128)
    ensures
        final(out)@.len() == old(out)@.len() + 16,
        final(out)@.subrange(0, old(out)@.len() as int) =~= old(out)@,
        le_bytes_to_nat(final(out)@.skip(old(out)@.len() as int)) == x,
{
    let ghost orig = out@;
    let mut t: u128 = x;
    let mut i: usize = 0;
    proof {
        lemma_pow256_16();
        assert(out@.skip(orig.len() as int) =~= Seq::<u8>::empty());
        assert(le_bytes_to_nat(Seq::<u8>::empty()) == 0);
        assert(pow256(0) == 1);
        assert(1 * (t as int) == t) by (nonlinear_arith);
    }
    while i < 16
        invariant
            0 <= i <= 16,
            out@.len() == orig.len() + i,
            out@.subrange(0, orig.len() as int) =~= orig,
            x == le_bytes_to_nat(out@.skip(orig.len() as int)) + pow256(i as nat) * t,
            t < pow256((16 - i) as nat),
        decreases 16 - i,
    {
        let b: u8 = (t % 256) as u8;
        let ghost s = out@.skip(orig.len() as int);
        out.push(b);
        proof {
            let tn: int = t as int;
            let p: int = pow256(i as nat) as int;
            assert(out@.skip(orig.len() as int) =~= s + seq![b]);
            assert(seq![b].skip(1) =~= Seq::<u8>::empty());
            assert(le_bytes_to_nat(Seq::<u8>::empty()) == 0);
            assert(seq![b][0] == b);
            assert(le_bytes_to_nat(seq![b]) == b);
            lemma_le_bytes_to_nat_append(s, seq![b]);
            lemma_fundamental_div_mod(tn, 256);
            assert(p * tn == p * (b + 256 * (tn / 256))) by (nonlinear_arith)
                requires tn == 256 * (tn / 256) + b;
            assert(p * (b + 256 * (tn / 256)) == p * b + (256 * p) * (tn / 256))
                by (nonlinear_arith);
            assert(pow256((i + 1) as nat) == 256 * p);
            lemma_multiply_divide_lt(tn, 256, pow256((15 - i) as nat) as int);
            assert(pow256((16 - i) as nat) == 256 * pow256((15 - i) as nat));
        }
        t = t / 256;
        i = i + 1;
    }
    proof {
        assert(t == 0);
        assert(pow256(16) * 0 == 0) by (nonlinear_arith);
    }
}

/// Reads 16 bytes starting at `start` as a little-endian 128-bit integer.
pub fn read_u128_le(bytes: &Vec<u8>, start: usize) -> (r: u128)
    requires
        start + 16 <= bytes@.len(),
    ensures
        r == le_bytes_to_nat(bytes@.subrange(start as int, start as int + 16)),
{
    let n: usize = bytes.len();
    let mut t: u128 = 0;
    let mut i: usize = 16;
    while i > 0
        invariant
            start + 16 <= n,
            n == bytes@.len(),
            0 <= i <= 16,
            t == le_bytes_to_nat(bytes@.subrange(start as int + i, start as int + 16)),
            t < pow256((16 - i) as nat),
        decreases i,
    {
        i = i - 1;
        let b: u8 = bytes[start + i];
        proof {
            let s = bytes@.subrange(start as int + i, start as int + 16);
            assert(s.skip(1) =~= bytes@.subrange(start as int + i + 1, start as int + 16));
            assert(s[0] == b);
            lemma_pow256_le((15 - i) as nat, 15);
            lemma_pow256_16();
            assert(pow256(15) * 256 == pow256(16)) by {
                reveal_with_fuel(pow256, 17);
            }
            assert(t * 256 + b < pow256((16 - i) as nat)) by (nonlinear_arith)
                requires
                    t < pow256((15 - i) as nat),
                    b < 256,
                    pow256((16 - i) as nat) == 256 * pow256((15 - i) as nat),
            ;
            assert(pow256((16 - i) as nat) == 256 * pow256((15 - i) as nat));
            lemma_pow256_le((16 - i) as nat, 16);
        }
        t = t * 256 + (b as u128);
    }
    proof {
        assert(bytes@.subrange(start as int, start as int + 16)
            == bytes@.subrange(start as int + 0, start as int + 16));
    }
    t
}

/// On sequences of equal length, the little-endian denotation is injective.
pub proof fn lemma_le_bytes_to_nat_injective(a: Seq<u8>, b: Seq<u8>)
    requires
        a.len() == b.len(),
        le_bytes_to_nat(a) == le_bytes_to_nat(b),
    ensures
        a =~= b,
    decreases a.len(),
{
    if a.len() == 0 {
    } else {
        let ra = le_bytes_to_nat(a.skip(1));
        let rb = le_bytes_to_nat(b.skip(1));
        lemma_mod_multiples_vanish(ra as int, a[0] as int, 256);
        lemma_mod_multiples_vanish(rb as int, b[0] as int, 256);
        lemma_small_mod(a[0] as nat, 256);
        lemma_small_mod(b[0] as nat, 256);
        assert(a[0] == b[0]);
        lemma_le_bytes_to_nat_injective(a.skip(1), b.skip(1));
        assert forall|i: int| 0 <= i < a.len() implies a[i] == b[i] by {
            if i > 0 {
                assert(a.skip(1)[i - 1] == b.skip(1)[i - 1]);
            }
        }
    }
}

} // verus!
