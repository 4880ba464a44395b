//! Scalar-field arithmetic: identities, small exact values, and reduction
//! at the modulus boundary.

use zkevm_core::field::{Fp, FR_MODULUS_LO, FR_MODULUS_HI};

#[test]
fn add_small_values() {
    let r = Fp::from_u64(2).add(&Fp::from_u64(3));
    assert_eq!(r, Fp::from_u64(5));
}

#[test]
fn add_wraps_at_modulus() {
    // (p - 1) + 2 == 1 (mod p).
    let p_minus_one = Fp { lo: FR_MODULUS_LO - 1, hi: FR_MODULUS_HI };
    let r = p_minus_one.add(&Fp::from_u64(2));
    assert_eq!(r, Fp::one());
}

#[test]
fn mul_small_values() {
    let r = Fp::from_u64(3).mul(&Fp::from_u64(4));
    assert_eq!(r, Fp::from_u64(12));
}

#[test]
fn mul_crosses_limb_boundary() {
    // 2^127 * 2 == 2^128: low limb 0, high limb 1.
    let r = Fp::from_u128(1u128 << 127).mul(&Fp::from_u64(2));
    assert_eq!(r, Fp { lo: 0, hi: 1 });
}

#[test]
fn neg_and_sub() {
    // -1 == p - 1.
    let r = Fp::one().neg();
    assert_eq!(r, Fp { lo: FR_MODULUS_LO - 1, hi: FR_MODULUS_HI });
    assert_eq!(Fp::zero().neg(), Fp::zero());
    // 5 - 3 == 2, and 3 - 5 == p - 2.
    assert_eq!(Fp::from_u64(5).sub(&Fp::from_u64(3)), Fp::from_u64(2));
    assert_eq!(
        Fp::from_u64(3).sub(&Fp::from_u64(5)),
        Fp { lo: FR_MODULUS_LO - 2, hi: FR_MODULUS_HI },
    );
    // x + (-x) == 0.
    let x = Fp { lo: 0xabcdef, hi: 0x123 };
    assert!(x.add(&x.neg()).is_zero());
}

#[test]
fn identities() {
    assert!(Fp::zero().is_zero());
    assert!(!Fp::one().is_zero());
    let x = Fp { lo: 77, hi: 3 };
    assert_eq!(x.add(&Fp::zero()), x);
    assert_eq!(x.mul(&Fp::one()), x);
    assert!(x.mul(&Fp::zero()).is_zero());
}
