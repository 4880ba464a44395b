//! Field elements of the proving system's scalar field, held in canonical
//! reduced form as two 128-bit limbs of the little-endian representation.
//! Addition and multiplication are delegated to the curve library; negation,
//! subtraction and all conversions are implemented and verified here.

use vstd::prelude::*;
use vstd::arithmetic::div_mod::{
    lemma_small_mod, lemma_mod_multiples_vanish, lemma_add_mod_noop,
};
use vstd::arithmetic::mul::lemma_mul_is_commutative;
use crate::math::{
    p128, le_bytes_to_nat, lemma_limbs_lt, lemma_pow256_16,
    lemma_le_bytes_to_nat_append, push_u128_le, read_u128_le,
};
use halo2curves::ff::PrimeField;

verus! {

/// Low limb of the scalar-field modulus.
pub const FR_MODULUS_LO: u128 = 0x2833e84879b9709143e1f593f0000001;

/// High limb of the scalar-field modulus.
pub const FR_MODULUS_HI: u128 = 0x30644e72e131a029b85045b68181585d;

/// The scalar-field modulus as a natural number.
pub open spec fn fr_modulus() -> nat {
    (FR_MODULUS_LO + FR_MODULUS_HI * p128()) as nat
}

/// A scalar-field element: the canonical little-endian representation split
/// into a low and a high 128-bit limb. Well-formed values denote a natural
/// number below the modulus.
#[derive(Clone, Copy, PartialEq, Eq, Structural, Debug)]
pub struct Fp {
    pub lo: u128,
    pub hi: u128,
}

/// A field element with a canonical fixed-width byte representation, exposing
/// reinterpretations of the low-order bytes as machine integers.
pub trait Field: Sized {
    /// The natural number the element denotes.
    spec fn value(&self) -> nat;

    /// The element is in canonical reduced form.
    spec fn wf(&self) -> bool;

    /// The low 128 bits of the canonical little-endian representation.
    fn get_lower_128(&self) -> (r: u128)
        requires
            self.wf(),
        ensures
            r == self.value() % p128(),
    ;

    /// The low 32 bits of the canonical little-endian representation.
    fn get_lower_32(&self) -> (r: u32)
        requires
            self.wf(),
        ensures
            r == self.value() % 0x1_0000_0000,
    ;
}

impl Field for Fp {
    open spec fn value(&self) -> nat {
        (self.lo + self.hi * p128()) as nat
    }

    open spec fn wf(&self) -> bool {
        self.value() < fr_modulus()
    }

    fn get_lower_128(&self) -> (r: u128) {
        proof {
            lemma_mod_multiples_vanish(self.hi as int, self.lo as int, p128() as int);
            lemma_mul_is_commutative(self.hi as int, p128() as int);
            lemma_small_mod(self.lo as nat, p128());
        }
        self.lo
    }

    fn get_lower_32(&self) -> (r: u32) {
        proof {
            let q: int = 0x1_0000_0000_0000_0000_0000_0000;
            assert(p128() == 0x1_0000_0000 * q);
            assert(self.hi * p128() == 0x1_0000_0000 * (self.hi * q)) by (nonlinear_arith)
                requires p128() == 0x1_0000_0000 * q;
            lemma_mod_multiples_vanish(self.hi as int * q, self.lo as int, 0x1_0000_0000);
            lemma_mod_multiples_vanish(self.lo as int / 0x1_0000_0000,
                self.lo as int % 0x1_0000_0000, 0x1_0000_0000);
            lemma_small_mod((self.lo % 0x1_0000_0000) as nat, 0x1_0000_0000);
        }
        (self.lo % 0x1_0000_0000) as u32
    }
}

/// The limb pair denoting `v`: low limb `v % 2^128`, high limb
/// `v / 2^128` (canonical for `v` below `2^256`).
pub open spec fn fp_of(v: nat) -> Fp {
    Fp { lo: (v % p128()) as u128, hi: (v / p128()) as u128 }
}

/// Two limb pairs denoting the same value are the same pair.
pub proof fn lemma_fp_value_injective(a: Fp, b: Fp)
    requires
        a.value() == b.value(),
    ensures
        a == b,
{
    lemma_mod_multiples_vanish(a.hi as int, a.lo as int, p128() as int);
    lemma_mod_multiples_vanish(b.hi as int, b.lo as int, p128() as int);
    lemma_mul_is_commutative(a.hi as int, p128() as int);
    lemma_mul_is_commutative(b.hi as int, p128() as int);
    lemma_small_mod(a.lo as nat, p128());
    lemma_small_mod(b.lo as nat, p128());
    assert(a.lo == b.lo);
    assert(a.hi as int * p128() == b.hi as int * p128());
    assert(a.hi == b.hi) by (nonlinear_arith)
        requires
            a.hi as int * p128() == b.hi as int * p128(),
            p128() > 0,
    ;
}

/// For `v` below `2^256`, the limb pair of `v` denotes `v`.
pub proof fn lemma_fp_of_value(v: nat)
    requires
        v < p128() * p128(),
    ensures
        fp_of(v).value() == v,
{
    vstd::arithmetic::div_mod::lemma_fundamental_div_mod(v as int, p128() as int);
    vstd::arithmetic::div_mod::lemma_multiply_divide_lt(v as int, p128() as int, p128() as int);
    lemma_mul_is_commutative(v as int / p128() as int, p128() as int);
}

/// Relies on `halo2curves::bn256::Fr`: `from_repr` accepts exactly the
/// canonical little-endian byte strings of values below the scalar-field
/// modulus, `+` is addition modulo that modulus, and `to_repr` returns the
/// canonical little-endian bytes of the result.
#[verifier::external_body]
fn fr_add(a: &Fp, b: &Fp) -> (r: Fp)
    requires
        a.wf(),
        b.wf(),
    ensures
        r.wf(),
        r.value() == (a.value() + b.value()) % fr_modulus(),
{
    let ra: [u8; 32] = a.to_repr().try_into().unwrap();
    let rb: [u8; 32] = b.to_repr().try_into().unwrap();
    let x = halo2curves::bn256::Fr::from_repr(ra.into()).unwrap();
    let y = halo2curves::bn256::Fr::from_repr(rb.into()).unwrap();
    let rep = (x + y).to_repr();
    let s: &[u8] = rep.as_ref();
    let lo = u128::from_le_bytes(s[0..16].try_into().unwrap());
    let hi = u128::from_le_bytes(s[16..32].try_into().unwrap());
    Fp { lo, hi }
}

/// Relies on `halo2curves::bn256::Fr`: `from_repr` accepts exactly the
/// canonical little-endian byte strings of values below the scalar-field
/// modulus, `*` is multiplication modulo that modulus, and `to_repr` returns
/// the canonical little-endian bytes of the result.
#[verifier::external_body]
fn fr_mul(a: &Fp, b: &Fp) -> (r: Fp)
    requires
        a.wf(),
        b.wf(),
    ensures
        r.wf(),
        r.value() == (a.value() * b.value()) % fr_modulus(),
{
    let ra: [u8; 32] = a.to_repr().try_into().unwrap();
    let rb: [u8; 32] = b.to_repr().try_into().unwrap();
    let x = halo2curves::bn256::Fr::from_repr(ra.into()).unwrap();
    let y = halo2curves::bn256::Fr::from_repr(rb.into()).unwrap();
    let rep = (x * y).to_repr();
    let s: &[u8] = rep.as_ref();
    let lo = u128::from_le_bytes(s[0..16].try_into().unwrap());
    let hi = u128::from_le_bytes(s[16..32].try_into().unwrap());
    Fp { lo, hi }
}

impl Fp {
    /// The additive identity.
    pub fn zero() -> (r: Fp)
        ensures
            r == (Fp { lo: 0, hi: 0 }),
            r.wf(),
            r.value() == 0,
    {
        Fp { lo: 0, hi: 0 }
    }

    /// The multiplicative identity.
    pub fn one() -> (r: Fp)
        ensures
            r == (Fp { lo: 1, hi: 0 }),
            r.wf(),
            r.value() == 1,
    {
        Fp { lo: 1, hi: 0 }
    }

    /// The element denoting a 64-bit unsigned integer.
    pub fn from_u64(x: u64) -> (r: Fp)
        ensures
            r.wf(),
            r.value() == x,
    {
        Fp { lo: x as u128, hi: 0 }
    }

    /// The element denoting a 128-bit unsigned integer.
    pub fn from_u128(x: u128) -> (r: Fp)
        ensures
            r.wf(),
            r.value() == x,
    {
        Fp { lo: x, hi: 0 }
    }

    /// Whether the element is the additive identity.
    pub fn is_zero(&self) -> (r: bool)
        ensures
            r <==> self.value() == 0,
    {
        proof {
            if self.hi >= 1 {
                assert(self.hi * p128() >= p128()) by (nonlinear_arith)
                    requires self.hi >= 1;
            }
        }
        self.lo == 0 && self.hi == 0
    }

    /// Field addition.
    pub fn add(&self, other: &Fp) -> (r: Fp)
        requires
            self.wf(),
            other.wf(),
        ensures
            r.wf(),
            r.value() == (self.value() + other.value()) % fr_modulus(),
    {
        fr_add(self, other)
    }

    /// Field multiplication.
    pub fn mul(&self, other: &Fp) -> (r: Fp)
        requires
            self.wf(),
            other.wf(),
        ensures
            r.wf(),
            r.value() == (self.value() * other.value()) % fr_modulus(),
    {
        fr_mul(self, other)
    }

    /// Field negation.
    pub fn neg(&self) -> (r: Fp)
        requires
            self.wf(),
        ensures
            r.wf(),
            r.value() == (fr_modulus() - self.value()) % (fr_modulus() as int),
    {
        proof {
            lemma_limbs_lt(self.lo as nat, self.hi as nat, FR_MODULUS_LO as nat,
                FR_MODULUS_HI as nat);
        }
        if self.lo == 0 && self.hi == 0 {
            proof {
                lemma_small_mod(0, fr_modulus());
                assert(fr_modulus() - 0 == fr_modulus());
                assert(fr_modulus() % fr_modulus() == 0) by {
                    lemma_mod_multiples_vanish(1, 0, fr_modulus() as int);
                }
            }
            Fp { lo: 0, hi: 0 }
        } else if self.lo <= FR_MODULUS_LO {
            let r = Fp { lo: FR_MODULUS_LO - self.lo, hi: FR_MODULUS_HI - self.hi };
            proof {
                lemma_small_mod((fr_modulus() - self.value()) as nat, fr_modulus());
            }
            r
        } else {
            let r = Fp {
                lo: (u128::MAX - self.lo) + 1 + FR_MODULUS_LO,
                hi: FR_MODULUS_HI - self.hi - 1,
            };
            proof {
                lemma_small_mod((fr_modulus() - self.value()) as nat, fr_modulus());
            }
            r
        }
    }

    /// Field subtraction.
    pub fn sub(&self, other: &Fp) -> (r: Fp)
        requires
            self.wf(),
            other.wf(),
        ensures
            r.wf(),
            r.value() == (self.value() + fr_modulus() - other.value()) % (fr_modulus() as int),
    {
        let n = other.neg();
        let r = fr_add(self, &n);
        proof {
            let m: int = fr_modulus() as int;
            let a: int = self.value() as int;
            let b: int = other.value() as int;
            lemma_add_mod_noop(a, m - b, m);
            lemma_small_mod(self.value(), fr_modulus());
        }
        r
    }

    /// The canonical 32-byte little-endian representation.
    pub fn to_repr(&self) -> (r: Vec<u8>)
        ensures
            r@.len() == 32,
            le_bytes_to_nat(r@) == self.value(),
    {
        let mut out: Vec<u8> = Vec::new();
        push_u128_le(&mut out, self.lo);
        let ghost first = out@;
        push_u128_le(&mut out, self.hi);
        proof {
            assert(out@.subrange(0, 16) =~= first.subrange(0, 16));
            assert(first.subrange(0, 16) =~= first);
            assert(out@ =~= out@.subrange(0, 16) + out@.skip(16));
            lemma_le_bytes_to_nat_append(out@.subrange(0, 16), out@.skip(16));
            lemma_pow256_16();
        }
        out
    }

    /// Reconstructs an element from a canonical 32-byte little-endian
    /// representation; fails exactly when the bytes denote a value that is
    /// not below the modulus.
    pub fn from_repr(bytes: &Vec<u8>) -> (r: Option<Fp>)
        requires
            bytes@.len() == 32,
        ensures
            le_bytes_to_nat(bytes@) < fr_modulus() ==> (r matches Some(f)
                && f.wf() && f.value() == le_bytes_to_nat(bytes@)),
            le_bytes_to_nat(bytes@) >= fr_modulus() ==> r is None,
    {
        let lo = read_u128_le(bytes, 0);
        let hi = read_u128_le(bytes, 16);
        proof {
            assert(bytes@ =~= bytes@.subrange(0, 16) + bytes@.subrange(16, 32));
            lemma_le_bytes_to_nat_append(bytes@.subrange(0, 16), bytes@.subrange(16, 32));
            lemma_pow256_16();
            vstd::arithmetic::mul::lemma_mul_is_commutative(hi as int, p128() as int);
            assert(le_bytes_to_nat(bytes@) == lo + hi * p128());
            lemma_limbs_lt(lo as nat, hi as nat, FR_MODULUS_LO as nat, FR_MODULUS_HI as nat);
        }
        if hi < FR_MODULUS_HI || (hi == FR_MODULUS_HI && lo < FR_MODULUS_LO) {
            Some(Fp { lo, hi })
        } else {
            None
        }
    }
}

} // verus!
