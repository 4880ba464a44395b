//! Positional base-256 decomposition: a little-endian byte sequence of at
//! most 32 bytes denotes the field element `Σ byteᵢ · 256^i`, both as a
//! concrete witness evaluator and as a symbolic expression builder, with
//! the proof that the two agree and that the map is injective.

use vstd::prelude::*;
use vstd::arithmetic::div_mod::{
    lemma_small_mod, lemma_add_mod_noop, lemma_mul_mod_noop_general,
};
use vstd::arithmetic::mul::lemma_mul_is_commutative;
use crate::math::{
    pow256, p128, le_bytes_to_nat, lemma_le_bytes_to_nat_append, lemma_le_bytes_to_nat_bound,
    lemma_le_bytes_to_nat_injective,
};
use crate::field::{Fp, Field, fr_modulus, fp_of, lemma_fp_of_value, lemma_fp_value_injective};
use crate::expression::{Expression, eval};

verus! {

/// The scalar-field modulus lies strictly between `256^31` and `256^32`.
pub proof fn lemma_modulus_between_pow256()
    ensures
        pow256(31) < fr_modulus(),
        fr_modulus() < pow256(32),
        fr_modulus() < p128() * p128(),
{
    reveal_with_fuel(pow256, 33);
}

/// The field element denoted by a little-endian byte sequence: the sum
/// `Σ byteᵢ · 256^i` reduced modulo the field modulus.
pub fn value(bytes: &Vec<u8>) -> (r: Fp)
    requires
        bytes@.len() <= 32,
    ensures
        r.wf(),
        r.value() == le_bytes_to_nat(bytes@) % fr_modulus(),
        bytes@.len() <= 31 ==> r.value() == le_bytes_to_nat(bytes@),
{
    let ghost m = fr_modulus();
    let mut acc = Fp::zero();
    let mut mult = Fp::one();
    let base = Fp::from_u64(256);
    let mut i: usize = 0;
    proof {
        assert(bytes@.take(0) =~= Seq::<u8>::empty());
        lemma_small_mod(0, m);
        lemma_small_mod(1, m);
    }
    while i < bytes.len()
        invariant
            0 <= i <= bytes@.len(),
            bytes@.len() <= 32,
            m == fr_modulus(),
            base.wf(),
            base.value() == 256,
            acc.wf(),
            mult.wf(),
            acc.value() == le_bytes_to_nat(bytes@.take(i as int)) % m,
            mult.value() == pow256(i as nat) % m,
        decreases bytes@.len() - i,
    {
        let b = bytes[i];
        let term = Fp::from_u64(b as u64).mul(&mult);
        let next_acc = acc.add(&term);
        let next_mult = mult.mul(&base);
        proof {
            let le_i = le_bytes_to_nat(bytes@.take(i as int)) as int;
            let p: int = pow256(i as nat) as int;
            let bv: int = b as int;
            assert(bytes@.take(i + 1) =~= bytes@.take(i as int) + seq![b]);
            assert(seq![b].skip(1) =~= Seq::<u8>::empty());
            assert(le_bytes_to_nat(Seq::<u8>::empty()) == 0);
            assert(seq![b][0] == b);
            assert(le_bytes_to_nat(seq![b]) == b);
            lemma_le_bytes_to_nat_append(bytes@.take(i as int), seq![b]);
            assert(le_bytes_to_nat(bytes@.take(i + 1)) == le_i + p * bv);
            // term value: (b * (p % m)) % m == (b * p) % m
            lemma_mul_mod_noop_general(bv, p, m as int);
            assert(term.value() == (bv * (p % m as int)) % m as int);
            assert(term.value() == (bv * p) % m as int);
            // acc': ((le_i % m) + ((b*p) % m)) % m == (le_i + b*p) % m
            lemma_add_mod_noop(le_i, bv * p, m as int);
            lemma_mul_is_commutative(bv, p);
            // mult': ((p % m) * 256) % m == (p * 256) % m == pow256(i+1) % m
            lemma_mul_mod_noop_general(p, 256, m as int);
            lemma_mul_is_commutative(p, 256);
            assert(pow256((i + 1) as nat) == 256 * p);
        }
        acc = next_acc;
        mult = next_mult;
        i = i + 1;
    }
    proof {
        assert(bytes@.take(bytes@.len() as int) =~= bytes@);
        if bytes@.len() <= 31 {
            lemma_le_bytes_to_nat_bound(bytes@);
            crate::math::lemma_pow256_le(bytes@.len(), 31);
            lemma_modulus_between_pow256();
            lemma_small_mod(le_bytes_to_nat(bytes@), m);
        }
    }
    acc
}

/// The symbolic positional decomposition of a sequence of byte-valued
/// expressions: `Σ bytesᵢ · 256^i`, each term scaled by the constant
/// `256^i` reduced into the field.
pub open spec fn from_bytes_expr_spec(bytes: Seq<Expression>) -> Expression
    decreases bytes.len(),
{
    if bytes.len() == 0 {
        Expression::Constant(Fp { lo: 0, hi: 0 })
    } else {
        Expression::Sum(
            Box::new(from_bytes_expr_spec(bytes.drop_last())),
            Box::new(Expression::Scaled(
                Box::new(bytes.last()),
                fp_of(pow256((bytes.len() - 1) as nat) % fr_modulus()),
            )),
        )
    }
}

/// Builds the symbolic positional decomposition of at most 32 byte-valued
/// expressions.
pub fn expr(bytes: &Vec<Expression>) -> (r: Expression)
    requires
        bytes@.len() <= 32,
    ensures
        r == from_bytes_expr_spec(bytes@),
{
    let ghost m = fr_modulus();
    let mut acc = Expression::Constant(Fp::zero());
    let mut mult = Fp::one();
    let base = Fp::from_u64(256);
    let mut i: usize = 0;
    proof {
        assert(bytes@.take(0) =~= Seq::<Expression>::empty());
        lemma_small_mod(1, m);
    }
    while i < bytes.len()
        invariant
            0 <= i <= bytes@.len(),
            bytes@.len() <= 32,
            m == fr_modulus(),
            base.wf(),
            base.value() == 256,
            mult.wf(),
            mult.value() == pow256(i as nat) % m,
            acc == from_bytes_expr_spec(bytes@.take(i as int)),
        decreases bytes@.len() - i,
    {
        let scaled = Expression::Scaled(Box::new(bytes[i].clone()), mult);
        let next_acc = Expression::Sum(Box::new(acc), Box::new(scaled));
        let next_mult = mult.mul(&base);
        proof {
            let p: int = pow256(i as nat) as int;
            assert(bytes@.take(i + 1).drop_last() =~= bytes@.take(i as int));
            assert(bytes@.take(i + 1).last() == bytes@[i as int]);
            lemma_modulus_between_pow256();
            lemma_fp_of_value(pow256(i as nat) % m);
            lemma_fp_value_injective(mult, fp_of(pow256(i as nat) % m));
            lemma_mul_mod_noop_general(p, 256, m as int);
            lemma_mul_is_commutative(p, 256);
            assert(pow256((i + 1) as nat) == 256 * p);
        }
        acc = next_acc;
        mult = next_mult;
        i = i + 1;
    }
    proof {
        assert(bytes@.take(bytes@.len() as int) =~= bytes@);
    }
    acc
}

/// For every byte sequence of at most 32 bytes: evaluating the symbolic
/// decomposition with cell expressions that take the byte values yields
/// exactly the concrete positional decomposition of those bytes.
pub proof fn lemma_from_bytes_consistency(
    exprs: Seq<Expression>,
    bytes: Seq<u8>,
    advice: Seq<Seq<Fp>>,
    col_start: int,
    row: int,
    kc: Fp,
    lc: Fp,
)
    requires
        exprs.len() == bytes.len(),
        forall|i: int|
            0 <= i < exprs.len() ==> eval(#[trigger] exprs[i], advice, col_start, row, kc, lc)
                == bytes[i] as nat,
    ensures
        eval(from_bytes_expr_spec(exprs), advice, col_start, row, kc, lc) == le_bytes_to_nat(
            bytes,
        ) % fr_modulus(),
    decreases exprs.len(),
{
    let m = fr_modulus();
    if exprs.len() == 0 {
        lemma_small_mod(0, m);
    } else {
        let n = exprs.len() as int;
        assert(forall|i: int| 0 <= i < n - 1 ==> exprs.drop_last()[i] == exprs[i]
            && bytes.drop_last()[i] == bytes[i]);
        lemma_from_bytes_consistency(
            exprs.drop_last(),
            bytes.drop_last(),
            advice,
            col_start,
            row,
            kc,
            lc,
        );
        let epre = eval(from_bytes_expr_spec(exprs.drop_last()), advice, col_start, row, kc, lc);
        assert(epre == le_bytes_to_nat(bytes.drop_last()) % m);
        let p: int = pow256((n - 1) as nat) as int;
        let bv: int = bytes.last() as int;
        lemma_modulus_between_pow256();
        lemma_fp_of_value(pow256((n - 1) as nat) % m);
        let escaled = eval(
            Expression::Scaled(
                Box::new(exprs.last()),
                fp_of(pow256((n - 1) as nat) % m),
            ),
            advice,
            col_start,
            row,
            kc,
            lc,
        );
        assert(exprs[n - 1] == exprs.last());
        assert(eval(exprs.last(), advice, col_start, row, kc, lc) == bytes.last() as nat);
        assert(escaled == (bv * (p % m as int)) % m as int);
        lemma_mul_mod_noop_general(bv, p, m as int);
        assert(escaled == (bv * p) % m as int);
        // whole: ((le_pre % m) + ((b*p) % m)) % m == (le_pre + b*p) % m
        let le_pre = le_bytes_to_nat(bytes.drop_last()) as int;
        lemma_add_mod_noop(le_pre, bv * p, m as int);
        lemma_mul_is_commutative(bv, p);
        assert(bytes =~= bytes.drop_last() + seq![bytes.last()]);
        assert(seq![bytes.last()].skip(1) =~= Seq::<u8>::empty());
        assert(le_bytes_to_nat(Seq::<u8>::empty()) == 0);
        assert(seq![bytes.last()][0] == bytes.last());
        assert(le_bytes_to_nat(seq![bytes.last()]) == bytes.last());
        lemma_le_bytes_to_nat_append(bytes.drop_last(), seq![bytes.last()]);
        assert(le_bytes_to_nat(bytes) == le_pre + p * bv);
        assert(eval(from_bytes_expr_spec(exprs), advice, col_start, row, kc, lc) == (epre
            + escaled) % m);
    }
}

/// On byte sequences of equal length up to 31 bytes, the positional
/// decomposition into the field is injective: the denoted values stay
/// below the modulus, so equal field elements force equal bytes.
pub proof fn lemma_positional_injective(a: Seq<u8>, b: Seq<u8>)
    requires
        a.len() == b.len(),
        a.len() <= 31,
        le_bytes_to_nat(a) % fr_modulus() == le_bytes_to_nat(b) % fr_modulus(),
    ensures
        a =~= b,
{
    lemma_le_bytes_to_nat_bound(a);
    lemma_le_bytes_to_nat_bound(b);
    crate::math::lemma_pow256_le(a.len(), 31);
    lemma_modulus_between_pow256();
    lemma_small_mod(le_bytes_to_nat(a), fr_modulus());
    lemma_small_mod(le_bytes_to_nat(b), fr_modulus());
    lemma_le_bytes_to_nat_injective(a, b);
}

} // verus!
