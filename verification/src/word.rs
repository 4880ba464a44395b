//! Chain-level value types — 256-bit words, 20-byte addresses, 32-byte
//! hashes — and the numeric codec between them, byte encodings and
//! scalar-field elements.

use vstd::prelude::*;
use vstd::arithmetic::div_mod::{
    lemma_small_mod, lemma_mod_multiples_vanish, lemma_fundamental_div_mod,
    lemma_multiply_divide_lt,
};
use vstd::arithmetic::mul::lemma_mul_is_commutative;
use crate::math::{
    p128, pow256, le_bytes_to_nat, be_bytes_to_nat, lemma_limbs_lt, lemma_pow256_16,
    lemma_le_bytes_to_nat_append, lemma_le_bytes_to_nat_bound,
    lemma_le_bytes_to_nat_injective, push_u128_le, read_u128_le,
};
use crate::field::{Fp, Field, fr_modulus, FR_MODULUS_LO, FR_MODULUS_HI};

verus! {

/// The number of values of a 256-bit word.
pub open spec fn p256() -> nat {
    p128() * p128()
}

/// A 256-bit unsigned integer held as two 128-bit limbs; its value is
/// `lo + hi * 2^128`.
#[derive(Clone, Copy, PartialEq, Eq, Structural, Debug)]
pub struct Word {
    pub lo: u128,
    pub hi: u128,
}

/// A 20-byte account address, held in big-endian byte order.
#[derive(Clone, PartialEq, Eq, Debug)]
pub struct Address {
    pub bytes: Vec<u8>,
}

/// A 32-byte hash digest, held in big-endian byte order.
#[derive(Clone, PartialEq, Eq, Debug)]
pub struct Hash {
    pub bytes: Vec<u8>,
}

/// A 64-bit unsigned quantity wrapped as a chain-level type.
#[derive(Clone, Copy, PartialEq, Eq, Structural, Debug)]
pub struct U64(pub u64);

impl Address {
    /// An address holds exactly 20 bytes.
    pub open spec fn wf(&self) -> bool {
        self.bytes@.len() == 20
    }
}

impl Hash {
    /// A hash holds exactly 32 bytes.
    pub open spec fn wf(&self) -> bool {
        self.bytes@.len() == 32
    }
}

/// Converts a value to a 256-bit word.
pub trait ToWord {
    /// Inputs on which the conversion is defined.
    spec fn to_word_wf(&self) -> bool;

    /// Convert the value to a [`Word`].
    fn to_word(&self) -> (w: Word)
        requires
            self.to_word_wf(),
    ;
}

/// Converts a value to a scalar-field element, failing when the value does
/// not fit below the field modulus.
pub trait ToScalar {
    /// Inputs on which the conversion is defined.
    spec fn to_scalar_wf(&self) -> bool;

    /// Convert the value to a field element, if it reduces uniquely.
    fn to_scalar(&self) -> (r: Option<Fp>)
        requires
            self.to_scalar_wf(),
    ;
}

/// Converts a value to a 20-byte address.
pub trait ToAddress {
    /// Convert the value to an [`Address`].
    fn to_address(&self) -> (r: Address);
}

/// Encodes a value as its canonical 32-byte big-endian representation.
pub trait ToBigEndian {
    /// Convert the value to a 32-byte array in big endian.
    fn to_be_bytes(&self) -> (r: Vec<u8>);
}

/// Encodes a value as its canonical 32-byte little-endian representation.
pub trait ToLittleEndian {
    /// Convert the value to a 32-byte array in little endian.
    fn to_le_bytes(&self) -> (r: Vec<u8>);
}

impl Word {
    /// The natural number this word denotes.
    pub open spec fn value(&self) -> nat {
        (self.lo + self.hi * p128()) as nat
    }

    /// A word built from its two 128-bit limbs.
    pub fn from_limbs(lo: u128, hi: u128) -> (w: Word)
        ensures
            w.lo == lo,
            w.hi == hi,
            w.value() == lo + hi * p128(),
    {
        Word { lo, hi }
    }

    /// The all-zero word.
    pub fn zero() -> (w: Word)
        ensures
            w.value() == 0,
    {
        Word { lo: 0, hi: 0 }
    }

    /// The word denoting one.
    pub fn one() -> (w: Word)
        ensures
            w.value() == 1,
    {
        Word { lo: 1, hi: 0 }
    }

    /// The (lo, hi) limb decomposition of the word.
    pub fn to_lo_hi(&self) -> (r: (u128, u128))
        ensures
            r.0 == self.lo,
            r.1 == self.hi,
            self.value() == r.0 + r.1 * p128(),
    {
        (self.lo, self.hi)
    }

    /// A word parsed from its 32-byte little-endian encoding.
    pub fn from_le_bytes(bytes: &Vec<u8>) -> (w: Word)
        requires
            bytes@.len() == 32,
        ensures
            w.value() == le_bytes_to_nat(bytes@),
    {
        let lo = read_u128_le(bytes, 0);
        let hi = read_u128_le(bytes, 16);
        proof {
            assert(bytes@ =~= bytes@.subrange(0, 16) + bytes@.subrange(16, 32));
            lemma_le_bytes_to_nat_append(bytes@.subrange(0, 16), bytes@.subrange(16, 32));
            lemma_pow256_16();
            lemma_mul_is_commutative(hi as int, p128() as int);
        }
        Word { lo, hi }
    }

    /// A word parsed from its 32-byte big-endian encoding.
    pub fn from_be_bytes(bytes: &Vec<u8>) -> (w: Word)
        requires
            bytes@.len() == 32,
        ensures
            w.value() == be_bytes_to_nat(bytes@),
    {
        let mut rev: Vec<u8> = Vec::new();
        let mut i: usize = 0;
        while i < 32
            invariant
                bytes@.len() == 32,
                0 <= i <= 32,
                rev@.len() == i,
                forall|j: int| 0 <= j < i ==> rev@[j] == bytes@[31 - j],
            decreases 32 - i,
        {
            let b: u8 = bytes[31 - i];
            rev.push(b);
            i = i + 1;
        }
        proof {
            assert(rev@ =~= bytes@.reverse());
        }
        Word::from_le_bytes(&rev)
    }

    /// The value of the word reduced to its low 160 bits, as denoted by the
    /// low 20 little-endian bytes of its encoding.
    pub open spec fn low_160(&self) -> nat {
        self.value() % pow256(20)
    }
}

/// The limb decomposition of a 256-bit value: low limb `v % 2^128`, high
/// limb `v / 2^128`.
pub open spec fn word_of(v: nat) -> Word {
    Word { lo: (v % p128()) as u128, hi: (v / p128()) as u128 }
}

/// Decomposing any 256-bit integer into (lo, hi) limbs and recomputing
/// `lo + hi * 2^128` returns the integer exactly, and the decomposition of
/// a word's value is that word.
pub proof fn lemma_word_decomposition_roundtrip(v: nat, w: Word)
    requires
        v < p256(),
    ensures
        word_of(v).value() == v,
        word_of(w.value()) == w,
{
    lemma_fundamental_div_mod(v as int, p128() as int);
    lemma_multiply_divide_lt(v as int, p128() as int, p128() as int);
    lemma_mul_is_commutative(v as int / p128() as int, p128() as int);
    let wv = w.value();
    lemma_mod_multiples_vanish(w.hi as int, w.lo as int, p128() as int);
    lemma_mul_is_commutative(w.hi as int, p128() as int);
    lemma_small_mod(w.lo as nat, p128());
    assert(wv % p128() == w.lo);
    lemma_fundamental_div_mod(wv as int, p128() as int);
    assert(p128() * (wv as int / p128() as int) == p128() * w.hi);
    assert(wv as int / p128() as int == w.hi) by (nonlinear_arith)
        requires
            p128() * (wv as int / p128() as int) == p128() * w.hi,
            p128() > 0,
    ;
}

impl ToLittleEndian for Word {
    /// Encode the value as a 32-byte array in little endian.
    fn to_le_bytes(&self) -> (r: Vec<u8>)
        ensures
            r@.len() == 32,
            le_bytes_to_nat(r@) == self.value(),
    {
        let mut out: Vec<u8> = Vec::new();
        push_u128_le(&mut out, self.lo);
        let ghost first = out@;
        push_u128_le(&mut out, self.hi);
        proof {
            assert(out@.subrange(0, 16) =~= first.subrange(0, 16));
            assert(first.subrange(0, 16) =~= first);
            assert(out@ =~= out@.subrange(0, 16) + out@.skip(16));
            lemma_le_bytes_to_nat_append(out@.subrange(0, 16), out@.skip(16));
            lemma_pow256_16();
            lemma_mul_is_commutative(self.hi as int, p128() as int);
        }
        out
    }
}

impl ToBigEndian for Word {
    /// Encode the value as a 32-byte array in big endian.
    fn to_be_bytes(&self) -> (r: Vec<u8>)
        ensures
            r@.len() == 32,
            be_bytes_to_nat(r@) == self.value(),
    {
        let le = self.to_le_bytes();
        let mut out: Vec<u8> = Vec::new();
        let mut i: usize = 0;
        while i < 32
            invariant
                le@.len() == 32,
                0 <= i <= 32,
                out@.len() == i,
                forall|j: int| 0 <= j < i ==> out@[j] == le@[31 - j],
            decreases 32 - i,
        {
            let b: u8 = le[31 - i];
            out.push(b);
            i = i + 1;
        }
        proof {
            assert(out@.reverse() =~= le@);
        }
        out
    }
}

/// The big-endian and little-endian encodings of a word are mutually
/// byte-reversed.
pub proof fn lemma_be_le_reversed(be: Seq<u8>, le: Seq<u8>, w: Word)
    requires
        be.len() == 32,
        le.len() == 32,
        be_bytes_to_nat(be) == w.value(),
        le_bytes_to_nat(le) == w.value(),
    ensures
        be =~= le.reverse(),
{
    lemma_le_bytes_to_nat_injective(be.reverse(), le);
    assert forall|i: int| 0 <= i < 32 implies be[i] == le.reverse()[i] by {
        assert(be.reverse()[31 - i] == be[i]);
        assert(le.reverse()[i] == le[31 - i]);
    }
}

impl ToScalar for Word {
    open spec fn to_scalar_wf(&self) -> bool {
        true
    }

    /// A word reduces to a scalar exactly when its value is below the field
    /// modulus; the resulting element denotes the same value, so its
    /// canonical little-endian bytes equal the word's little-endian bytes.
    fn to_scalar(&self) -> (r: Option<Fp>)
        ensures
            self.value() < fr_modulus() ==> (r matches Some(f)
                && f.wf() && f.value() == self.value()),
            self.value() >= fr_modulus() ==> r is None,
    {
        proof {
            lemma_limbs_lt(self.lo as nat, self.hi as nat, FR_MODULUS_LO as nat,
                FR_MODULUS_HI as nat);
        }
        if self.hi < FR_MODULUS_HI || (self.hi == FR_MODULUS_HI && self.lo < FR_MODULUS_LO) {
            Some(Fp { lo: self.lo, hi: self.hi })
        } else {
            None
        }
    }
}

impl ToAddress for Word {
    /// The address held in the low 20 bytes of the big-endian encoding.
    fn to_address(&self) -> (r: Address)
        ensures
            r.wf(),
            be_bytes_to_nat(r.bytes@) == self.low_160(),
    {
        let le = self.to_le_bytes();
        let mut out: Vec<u8> = Vec::new();
        let mut i: usize = 0;
        while i < 20
            invariant
                le@.len() == 32,
                0 <= i <= 20,
                out@.len() == i,
                forall|j: int| 0 <= j < i ==> out@[j] == le@[19 - j],
            decreases 20 - i,
        {
            let b: u8 = le[19 - i];
            out.push(b);
            i = i + 1;
        }
        proof {
            assert(out@.reverse() =~= le@.take(20));
            assert(le@ =~= le@.take(20) + le@.skip(20));
            lemma_le_bytes_to_nat_append(le@.take(20), le@.skip(20));
            lemma_le_bytes_to_nat_bound(le@.take(20));
            lemma_mod_multiples_vanish(le_bytes_to_nat(le@.skip(20)) as int,
                le_bytes_to_nat(le@.take(20)) as int, pow256(20) as int);
            lemma_mul_is_commutative(pow256(20) as int, le_bytes_to_nat(le@.skip(20)) as int);
            lemma_small_mod(le_bytes_to_nat(le@.take(20)), pow256(20));
        }
        Address { bytes: out }
    }
}

impl ToWord for Word {
    open spec fn to_word_wf(&self) -> bool {
        true
    }

    fn to_word(&self) -> (w: Word)
        ensures
            w == *self,
    {
        *self
    }
}

impl ToWord for Hash {
    open spec fn to_word_wf(&self) -> bool {
        self.wf()
    }

    /// The word denoted by the big-endian digest bytes.
    fn to_word(&self) -> (w: Word)
        ensures
            w.value() == be_bytes_to_nat(self.bytes@),
    {
        Word::from_be_bytes(&self.bytes)
    }
}

impl ToWord for Address {
    open spec fn to_word_wf(&self) -> bool {
        self.wf()
    }

    /// The address zero-padded on the most-significant side to 32 bytes.
    fn to_word(&self) -> (w: Word)
        ensures
            w.value() == be_bytes_to_nat(self.bytes@),
    {
        let mut padded: Vec<u8> = Vec::new();
        let mut i: usize = 0;
        while i < 12
            invariant
                0 <= i <= 12,
                padded@.len() == i,
                forall|j: int| 0 <= j < i ==> padded@[j] == 0u8,
            decreases 12 - i,
        {
            padded.push(0u8);
            i = i + 1;
        }
        let mut k: usize = 0;
        while k < 20
            invariant
                self.wf(),
                0 <= k <= 20,
                padded@.len() == 12 + k,
                forall|j: int| 0 <= j < 12 ==> padded@[j] == 0u8,
                forall|j: int| 0 <= j < k ==> padded@[12 + j] == self.bytes@[j],
            decreases 20 - k,
        {
            let b: u8 = self.bytes[k];
            padded.push(b);
            k = k + 1;
        }
        let w = Word::from_be_bytes(&padded);
        proof {
            assert(padded@.reverse().skip(20) =~= Seq::new(12, |j: int| 0u8));
            assert(padded@.reverse().take(20) =~= self.bytes@.reverse());
            assert(padded@.reverse() =~= padded@.reverse().take(20) + padded@.reverse().skip(20));
            lemma_le_bytes_to_nat_append(padded@.reverse().take(20), padded@.reverse().skip(20));
            lemma_zero_bytes(Seq::new(12, |j: int| 0u8));
        }
        w
    }
}

/// A sequence of zero bytes denotes zero.
pub proof fn lemma_zero_bytes(s: Seq<u8>)
    requires
        forall|j: int| 0 <= j < s.len() ==> s[j] == 0u8,
    ensures
        le_bytes_to_nat(s) == 0,
    decreases s.len(),
{
    if s.len() > 0 {
        lemma_zero_bytes(s.skip(1));
    }
}

impl ToWord for bool {
    open spec fn to_word_wf(&self) -> bool {
        true
    }

    fn to_word(&self) -> (w: Word)
        ensures
            w.value() == if *self { 1nat } else { 0nat },
    {
        if *self {
            Word::one()
        } else {
            Word::zero()
        }
    }
}

impl ToWord for u64 {
    open spec fn to_word_wf(&self) -> bool {
        true
    }

    fn to_word(&self) -> (w: Word)
        ensures
            w.value() == *self,
    {
        Word { lo: *self as u128, hi: 0 }
    }
}

impl ToWord for u128 {
    open spec fn to_word_wf(&self) -> bool {
        true
    }

    fn to_word(&self) -> (w: Word)
        ensures
            w.value() == *self,
    {
        Word { lo: *self, hi: 0 }
    }
}

impl ToWord for usize {
    open spec fn to_word_wf(&self) -> bool {
        true
    }

    fn to_word(&self) -> (w: Word)
        ensures
            w.value() == *self,
    {
        Word { lo: *self as u128, hi: 0 }
    }
}

impl ToWord for i32 {
    open spec fn to_word_wf(&self) -> bool {
        true
    }

    /// Negative values map through the 256-bit wraparound `0 - n`, never a
    /// raw negative representation.
    fn to_word(&self) -> (w: Word)
        ensures
            *self >= 0 ==> w.value() == *self,
            *self < 0 ==> w.value() == p256() - ((-*self) as nat),
    {
        if *self >= 0 {
            Word { lo: *self as u128, hi: 0 }
        } else {
            let m: i64 = -(*self as i64);
            let n: u128 = m as u128;
            let w = Word { lo: (u128::MAX - n) + 1, hi: u128::MAX };
            proof {
                assert(w.value() == (p128() - n) + (p128() - 1) * p128());
                assert((p128() - n) + (p128() - 1) * p128() == p128() * p128() - n)
                    by (nonlinear_arith);
            }
            w
        }
    }
}

impl ToWord for U64 {
    open spec fn to_word_wf(&self) -> bool {
        true
    }

    fn to_word(&self) -> (w: Word)
        ensures
            w.value() == self.0,
    {
        Word { lo: self.0 as u128, hi: 0 }
    }
}

impl ToScalar for Address {
    open spec fn to_scalar_wf(&self) -> bool {
        self.wf()
    }

    /// An address always fits below the field modulus.
    fn to_scalar(&self) -> (r: Option<Fp>)
        ensures
            r matches Some(f) && f.wf() && f.value() == be_bytes_to_nat(self.bytes@),
    {
        let w = self.to_word();
        proof {
            lemma_le_bytes_to_nat_bound(self.bytes@.reverse());
            lemma_pow256_20_lt_modulus();
        }
        w.to_scalar()
    }
}

/// 2^160 is below the scalar-field modulus.
pub proof fn lemma_pow256_20_lt_modulus()
    ensures
        pow256(20) < fr_modulus(),
{
    reveal_with_fuel(pow256, 21);
}

impl ToScalar for bool {
    open spec fn to_scalar_wf(&self) -> bool {
        true
    }

    fn to_scalar(&self) -> (r: Option<Fp>)
        ensures
            r matches Some(f) && f.wf() && f.value() == if *self { 1nat } else { 0nat },
    {
        self.to_word().to_scalar()
    }
}

impl ToScalar for u64 {
    open spec fn to_scalar_wf(&self) -> bool {
        true
    }

    fn to_scalar(&self) -> (r: Option<Fp>)
        ensures
            r matches Some(f) && f.wf() && f.value() == *self,
    {
        Some(Fp::from_u64(*self))
    }
}

impl ToScalar for usize {
    open spec fn to_scalar_wf(&self) -> bool {
        true
    }

    fn to_scalar(&self) -> (r: Option<Fp>)
        ensures
            r matches Some(f) && f.wf() && f.value() == *self,
    {
        Some(Fp::from_u64(*self as u64))
    }
}

} // verus!
