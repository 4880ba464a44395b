//! Random linear combination: compresses an ordered sequence into a single
//! field element `Σ values[i] * r^i` by Horner's rule, both as a concrete
//! witness evaluator and as a symbolic expression builder, and the proof
//! that the two agree.

use vstd::prelude::*;
use vstd::arithmetic::div_mod::{lemma_small_mod, lemma_add_mod_noop};
use vstd::arithmetic::mul::lemma_mul_is_commutative;
use crate::field::{Fp, Field, fr_modulus};
use crate::expression::{Expression, eval};

verus! {

/// The random linear combination `Σ values[i] * r^i` of a sequence, folded
/// most-significant-item first and reduced at every step; zero for the
/// empty sequence.
pub open spec fn rlc_nat(values: Seq<nat>, r: nat) -> nat
    decreases values.len(),
{
    if values.len() == 0 {
        0
    } else {
        (values[0] + r * rlc_nat(values.skip(1), r)) % fr_modulus()
    }
}

/// The combination of any sequence is reduced.
pub proof fn lemma_rlc_nat_bound(values: Seq<nat>, r: nat)
    ensures
        rlc_nat(values, r) < fr_modulus(),
{
}

/// The concrete fold `acc <- acc * r + v`, most-significant element first,
/// over a non-empty sequence of field elements.
pub fn generic(values: &Vec<Fp>, randomness: &Fp) -> (res: Fp)
    requires
        values@.len() > 0,
        randomness.wf(),
        forall|i: int| 0 <= i < values@.len() ==> (#[trigger] values@[i]).wf(),
    ensures
        res.wf(),
        res.value() == rlc_nat(
            values@.map_values(|f: Fp| f.value()),
            randomness.value(),
        ),
{
    let ghost vs = values@.map_values(|f: Fp| f.value());
    let ghost rv = randomness.value();
    let n = values.len();
    let mut acc: Fp = values[n - 1];
    proof {
        assert(vs.skip(n - 1).len() == 1);
        assert(vs.skip(n - 1)[0] == vs[n - 1]);
        assert(vs.skip(n - 1).skip(1) =~= Seq::<nat>::empty());
        assert(rv * rlc_nat(vs.skip(n - 1).skip(1), rv) == 0) by (nonlinear_arith)
            requires rlc_nat(vs.skip(n - 1).skip(1), rv) == 0;
        lemma_small_mod(vs[n - 1], fr_modulus());
    }
    let mut i: usize = n - 1;
    while i > 0
        invariant
            0 <= i < n,
            n == values@.len(),
            randomness.wf(),
            forall|k: int| 0 <= k < values@.len() ==> (#[trigger] values@[k]).wf(),
            vs == values@.map_values(|f: Fp| f.value()),
            rv == randomness.value(),
            acc.wf(),
            acc.value() == rlc_nat(vs.skip(i as int), rv),
        decreases i,
    {
        i = i - 1;
        let t = acc.mul(randomness);
        let next = t.add(&values[i]);
        proof {
            let m = fr_modulus();
            let accv = acc.value();
            let vi = vs[i as int];
            assert(vs.skip(i as int)[0] == vi);
            assert(vs.skip(i as int).skip(1) =~= vs.skip(i + 1));
            lemma_rlc_nat_bound(vs.skip(i + 1), rv);
            lemma_mul_is_commutative(accv as int, rv as int);
            lemma_add_mod_noop((rv * accv) as int, vi as int, m as int);
            lemma_small_mod((rv * accv) % m, m);
            lemma_small_mod(vi, m);
        }
        acc = next;
    }
    proof {
        assert(vs.skip(0) =~= vs);
    }
    acc
}

/// The concrete random linear combination of a byte sequence: maps each
/// byte to a field element and folds; zero for the empty sequence.
pub fn value(values: &Vec<u8>, randomness: &Fp) -> (res: Fp)
    requires
        randomness.wf(),
    ensures
        res.wf(),
        res.value() == rlc_nat(
            values@.map_values(|b: u8| b as nat),
            randomness.value(),
        ),
{
    let ghost bs = values@.map_values(|b: u8| b as nat);
    if values.len() == 0 {
        return Fp::zero();
    }
    let mut felts: Vec<Fp> = Vec::new();
    let mut i: usize = 0;
    while i < values.len()
        invariant
            0 <= i <= values@.len(),
            felts@.len() == i,
            forall|k: int| 0 <= k < i ==> (#[trigger] felts@[k]).wf() && felts@[k].value()
                == values@[k] as nat,
        decreases values@.len() - i,
    {
        felts.push(Fp::from_u64(values[i] as u64));
        i = i + 1;
    }
    let res = generic(&felts, randomness);
    proof {
        assert(felts@.map_values(|f: Fp| f.value()) =~= bs);
    }
    res
}

/// The symbolic random linear combination: the same fold over expressions,
/// with the challenge as the multiplier; the constant zero for the empty
/// sequence.
pub open spec fn rlc_expr_spec(values: Seq<Expression>, randomness: Expression) -> Expression
    decreases values.len(),
{
    if values.len() == 0 {
        Expression::Constant(Fp { lo: 0, hi: 0 })
    } else if values.len() == 1 {
        values[0]
    } else {
        Expression::Sum(
            Box::new(Expression::Product(
                Box::new(rlc_expr_spec(values.skip(1), randomness)),
                Box::new(randomness),
            )),
            Box::new(values[0]),
        )
    }
}

/// Builds the symbolic random linear combination of `values` with the
/// challenge expression `randomness`.
pub fn expr(values: &Vec<Expression>, randomness: &Expression) -> (res: Expression)
    ensures
        res == rlc_expr_spec(values@, *randomness),
{
    let n = values.len();
    if n == 0 {
        return Expression::Constant(Fp::zero());
    }
    let mut acc: Expression = values[n - 1].clone();
    proof {
        assert(values@.skip(n - 1).len() == 1);
        assert(values@.skip(n - 1)[0] == values@[n - 1]);
    }
    let mut i: usize = n - 1;
    while i > 0
        invariant
            0 <= i < n,
            n == values@.len(),
            acc == rlc_expr_spec(values@.skip(i as int), *randomness),
        decreases i,
    {
        i = i - 1;
        let next = Expression::Sum(
            Box::new(Expression::Product(Box::new(acc), Box::new(randomness.clone()))),
            Box::new(values[i].clone()),
        );
        proof {
            assert(values@.skip(i as int).len() >= 2);
            assert(values@.skip(i as int)[0] == values@[i as int]);
            assert(values@.skip(i as int).skip(1) =~= values@.skip(i + 1));
        }
        acc = next;
    }
    proof {
        assert(values@.skip(0) =~= values@);
    }
    acc
}

/// For every finite byte sequence and challenge: evaluating the symbolic
/// combination with cell expressions that take the byte values, and the
/// challenge expression taking the concrete challenge, yields exactly the
/// concrete witness combination of the bytes with that challenge.
pub proof fn lemma_rlc_consistency(
    values: Seq<Expression>,
    randomness: Expression,
    bytes: Seq<u8>,
    challenge: Fp,
    advice: Seq<Seq<Fp>>,
    col_start: int,
    row: int,
    kc: Fp,
    lc: Fp,
)
    requires
        values.len() == bytes.len(),
        challenge.wf(),
        forall|i: int|
            0 <= i < values.len() ==> eval(#[trigger] values[i], advice, col_start, row, kc, lc)
                == bytes[i] as nat,
        eval(randomness, advice, col_start, row, kc, lc) == challenge.value(),
    ensures
        eval(rlc_expr_spec(values, randomness), advice, col_start, row, kc, lc) == rlc_nat(
            bytes.map_values(|b: u8| b as nat),
            challenge.value(),
        ),
    decreases values.len(),
{
    let m = fr_modulus();
    let bs = bytes.map_values(|b: u8| b as nat);
    let rv = challenge.value();
    if values.len() == 0 {
        lemma_small_mod(0, m);
        assert(rlc_expr_spec(values, randomness) == Expression::Constant(Fp { lo: 0, hi: 0 }));
        assert((Fp { lo: 0, hi: 0 }).value() == 0);
        assert(eval(rlc_expr_spec(values, randomness), advice, col_start, row, kc, lc) == 0);
        assert(rlc_nat(bs, rv) == 0);
    } else if values.len() == 1 {
        assert(eval(values[0], advice, col_start, row, kc, lc) == bytes[0] as nat);
        assert(bs.skip(1) =~= Seq::<nat>::empty());
        assert(rv * rlc_nat(bs.skip(1), rv) == 0) by (nonlinear_arith)
            requires rlc_nat(bs.skip(1), rv) == 0;
        lemma_small_mod(bytes[0] as nat, m);
    } else {
        assert(forall|i: int|
            0 <= i < values.skip(1).len() ==> eval(
                #[trigger] values.skip(1)[i],
                advice,
                col_start,
                row,
                kc,
                lc,
            ) == bytes.skip(1)[i] as nat) by {
            assert(forall|i: int|
                0 <= i < values.skip(1).len() ==> values.skip(1)[i] == values[i + 1]
                    && bytes.skip(1)[i] == bytes[i + 1]);
        }
        lemma_rlc_consistency(
            values.skip(1),
            randomness,
            bytes.skip(1),
            challenge,
            advice,
            col_start,
            row,
            kc,
            lc,
        );
        let erec = eval(rlc_expr_spec(values.skip(1), randomness), advice, col_start, row, kc, lc);
        assert(bs.skip(1) =~= bytes.skip(1).map_values(|b: u8| b as nat));
        assert(erec == rlc_nat(bs.skip(1), rv));
        lemma_rlc_nat_bound(bs.skip(1), rv);
        lemma_mul_is_commutative(erec as int, rv as int);
        lemma_add_mod_noop((rv * erec) as int, bytes[0] as int, m as int);
        lemma_small_mod((rv * erec) % m, m);
        lemma_small_mod(bytes[0] as nat, m);
        assert(bs[0] == bytes[0] as nat);
        assert(eval(values[0], advice, col_start, row, kc, lc) == bytes[0] as nat);
        let whole = rlc_expr_spec(values, randomness);
        assert(whole == Expression::Sum(
            Box::new(Expression::Product(
                Box::new(rlc_expr_spec(values.skip(1), randomness)),
                Box::new(randomness),
            )),
            Box::new(values[0]),
        ));
        let eprod = eval(
            Expression::Product(
                Box::new(rlc_expr_spec(values.skip(1), randomness)),
                Box::new(randomness),
            ),
            advice,
            col_start,
            row,
            kc,
            lc,
        );
        assert(eprod == (erec * rv) % m);
        assert(eval(whole, advice, col_start, row, kc, lc) == (eprod + bytes[0] as nat) % m);
        assert(eval(whole, advice, col_start, row, kc, lc) == (rv * erec + bytes[0] as nat) % m);
        assert(rlc_nat(bs, rv) == (bs[0] + rv * rlc_nat(bs.skip(1), rv)) % m);
    }
}

} // verus!
