//! The two byte codecs: random linear combination and positional base-256
//! decomposition, concrete and symbolic forms agreeing.

use zkevm_core::field::{Fp, FR_MODULUS_LO, FR_MODULUS_HI};
use zkevm_core::word::{Word, ToLittleEndian};
use zkevm_core::expression::Expression;
use zkevm_core::challenges::Challenges;
use zkevm_core::cached_region::CachedRegion;
use zkevm_core::{rlc, from_bytes};

fn region_with_challenges(kc: u64, lc: u64) -> CachedRegion {
    let ch = Challenges::construct().values(Fp::from_u64(kc), Fp::from_u64(lc));
    CachedRegion::new(0, 0, 1, 1, ch)
}

#[test]
fn rlc_of_three_bytes_with_challenge_two() {
    // Big-endian bytes [1, 2, 3] folded with r = 2: 1, 1*2+2 = 4,
    // 4*2+3 = 11. The evaluator takes the ascending-power order.
    let r = rlc::value(&vec![3, 2, 1], &Fp::from_u64(2));
    assert_eq!(r, Fp::from_u64(11));
}

#[test]
fn rlc_of_empty_sequence_is_zero() {
    let r = rlc::value(&vec![], &Fp::from_u64(2));
    assert_eq!(r, Fp::zero());
}

#[test]
fn rlc_generic_matches_byte_evaluator() {
    let felts = vec![Fp::from_u64(3), Fp::from_u64(2), Fp::from_u64(1)];
    let r = rlc::generic(&felts, &Fp::from_u64(2));
    assert_eq!(r, Fp::from_u64(11));
}

#[test]
fn rlc_single_item_is_the_item() {
    let r = rlc::generic(&vec![Fp::from_u64(9)], &Fp::from_u64(7));
    assert_eq!(r, Fp::from_u64(9));
}

#[test]
fn symbolic_rlc_evaluates_like_concrete_rlc() {
    // Substitute the byte values as constants and the first challenge as
    // the multiplier, then evaluate: must equal the witness evaluator.
    let region = region_with_challenges(2, 0);
    let bytes: Vec<u8> = vec![3, 2, 1];
    let exprs: Vec<Expression> = bytes
        .iter()
        .map(|b| Expression::Constant(Fp::from_u64(*b as u64)))
        .collect();
    let challenge_expr = Challenges::construct().exprs().keccak_input().clone();
    let symbolic = rlc::expr(&exprs, &challenge_expr);
    let evaluated = symbolic.evaluate(&region, 0);
    let concrete = rlc::value(&bytes, region.challenges().keccak_input());
    assert_eq!(evaluated, concrete);
    assert_eq!(concrete, Fp::from_u64(11));
}

#[test]
fn positional_decomposition_exact_value() {
    // [1, 0, 1] little-endian denotes 1 + 256^2 = 65537.
    let r = from_bytes::value(&vec![1, 0, 1]);
    assert_eq!(r, Fp::from_u64(65537));
    assert_eq!(from_bytes::value(&vec![]), Fp::zero());
}

#[test]
fn positional_decomposition_of_full_word_reduces() {
    // 32 bytes may denote a value at or above the modulus: the bytes of
    // the modulus itself decompose to zero in the field, so equal-length
    // injectivity stops at 31 bytes.
    let modulus_bytes = Word::from_limbs(FR_MODULUS_LO, FR_MODULUS_HI).to_le_bytes();
    assert_eq!(from_bytes::value(&modulus_bytes), Fp::zero());
    let zero_bytes = vec![0u8; 32];
    assert_eq!(from_bytes::value(&zero_bytes), Fp::zero());
}

#[test]
fn positional_decomposition_injective_up_to_31_bytes() {
    let mut a = vec![0u8; 31];
    let mut b = vec![0u8; 31];
    a[30] = 1;
    b[30] = 2;
    assert_ne!(from_bytes::value(&a), from_bytes::value(&b));
}

#[test]
fn symbolic_decomposition_evaluates_like_concrete() {
    let region = region_with_challenges(0, 0);
    let bytes: Vec<u8> = vec![0xaa, 0xbb, 0xcc, 4];
    let exprs: Vec<Expression> = bytes
        .iter()
        .map(|b| Expression::Constant(Fp::from_u64(*b as u64)))
        .collect();
    let symbolic = from_bytes::expr(&exprs);
    let evaluated = symbolic.evaluate(&region, 0);
    assert_eq!(evaluated, from_bytes::value(&bytes));
}
