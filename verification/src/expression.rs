//! Symbolic polynomial expressions over trace cells and challenges, closed
//! under negation, sum, product and scalar multiplication, with a computable
//! degree and a spec-level evaluation semantics.

use vstd::prelude::*;
use crate::field::{Fp, Field, fr_modulus};
use crate::challenges::Challenge;

verus! {

/// A symbolic polynomial over cell references and challenges.
#[derive(Debug, PartialEq)]
pub enum Expression {
    /// A constant field element.
    Constant(Fp),
    /// A query of an assignable cell: a column and a signed row offset
    /// relative to the row the expression is evaluated at.
    Advice { column: usize, rotation: i32 },
    /// A phase-gated random scalar.
    Challenge(Challenge),
    /// Additive inverse of a polynomial.
    Negated(Box<Expression>),
    /// Sum of two polynomials.
    Sum(Box<Expression>, Box<Expression>),
    /// Product of two polynomials.
    Product(Box<Expression>, Box<Expression>),
    /// A polynomial scaled by a constant.
    Scaled(Box<Expression>, Fp),
}

/// The degree of an expression as a polynomial in the cell queries:
/// queries have degree one, constants and challenges degree zero.
pub open spec fn spec_degree(e: Expression) -> nat
    decreases e,
{
    match e {
        Expression::Constant(_) => 0,
        Expression::Advice { .. } => 1,
        Expression::Challenge(_) => 0,
        Expression::Negated(x) => spec_degree(*x),
        Expression::Sum(a, b) => if spec_degree(*a) >= spec_degree(*b) {
            spec_degree(*a)
        } else {
            spec_degree(*b)
        },
        Expression::Product(a, b) => spec_degree(*a) + spec_degree(*b),
        Expression::Scaled(x, _) => spec_degree(*x),
    }
}

/// The value of an expression, modulo the field modulus, given the cached
/// advice values of a region window, the window's first column, the
/// region-relative row, and the two bound challenges.
pub open spec fn eval(
    e: Expression,
    advice: Seq<Seq<Fp>>,
    col_start: int,
    row: int,
    kc: Fp,
    lc: Fp,
) -> nat
    decreases e,
{
    match e {
        Expression::Constant(f) => f.value() % fr_modulus(),
        Expression::Advice { column, rotation } => advice[column - col_start][row
            + rotation].value() % fr_modulus(),
        Expression::Challenge(c) => if c.index == 0 {
            kc.value() % fr_modulus()
        } else {
            lc.value() % fr_modulus()
        },
        Expression::Negated(x) => (((fr_modulus() - eval(*x, advice, col_start, row, kc, lc))
            % (fr_modulus() as int)) as nat),
        Expression::Sum(a, b) => (eval(*a, advice, col_start, row, kc, lc)
            + eval(*b, advice, col_start, row, kc, lc)) % fr_modulus(),
        Expression::Product(a, b) => (eval(*a, advice, col_start, row, kc, lc)
            * eval(*b, advice, col_start, row, kc, lc)) % fr_modulus(),
        Expression::Scaled(x, f) => (eval(*x, advice, col_start, row, kc, lc) * f.value())
            % fr_modulus(),
    }
}

/// Every expression evaluates below the field modulus.
pub proof fn lemma_eval_bound(
    e: Expression,
    advice: Seq<Seq<Fp>>,
    col_start: int,
    row: int,
    kc: Fp,
    lc: Fp,
)
    ensures
        eval(e, advice, col_start, row, kc, lc) < fr_modulus(),
    decreases e,
{
    match e {
        Expression::Negated(x) => {
            lemma_eval_bound(*x, advice, col_start, row, kc, lc);
        },
        _ => {},
    }
}

impl Expression {
    /// The degree of the expression, saturated at the machine word limit.
    pub fn degree(&self) -> (r: usize)
        ensures
            r == if spec_degree(*self) > usize::MAX {
                usize::MAX as nat
            } else {
                spec_degree(*self)
            },
        decreases self,
    {
        match self {
            Expression::Constant(_) => 0,
            Expression::Advice { .. } => 1,
            Expression::Challenge(_) => 0,
            Expression::Negated(x) => x.degree(),
            Expression::Sum(a, b) => {
                let da = a.degree();
                let db = b.degree();
                if da >= db {
                    da
                } else {
                    db
                }
            },
            Expression::Product(a, b) => {
                let da = a.degree();
                let db = b.degree();
                if da > usize::MAX - db {
                    usize::MAX
                } else {
                    da + db
                }
            },
            Expression::Scaled(x, _) => x.degree(),
        }
    }
}

impl Clone for Expression {
    /// Structural copy: the clone is equal to the original.
    fn clone(&self) -> (r: Self)
        ensures
            r == *self,
        decreases self,
    {
        match self {
            Expression::Constant(f) => Expression::Constant(*f),
            Expression::Advice { column, rotation } => Expression::Advice {
                column: *column,
                rotation: *rotation,
            },
            Expression::Challenge(c) => Expression::Challenge(*c),
            Expression::Negated(x) => Expression::Negated(Box::new((**x).clone())),
            Expression::Sum(a, b) => Expression::Sum(Box::new((**a).clone()),
                Box::new((**b).clone())),
            Expression::Product(a, b) => Expression::Product(Box::new((**a).clone()),
                Box::new((**b).clone())),
            Expression::Scaled(x, f) => Expression::Scaled(Box::new((**x).clone()), *f),
        }
    }
}

/// A 256-bit quantity carried as two half-width parts, each represented by
/// one value of type `T` (an expression or a concrete field element).
#[derive(Clone, Debug, PartialEq)]
pub struct WordLoHi<T> {
    pub lo: T,
    pub hi: T,
}

impl<T> WordLoHi<T> {
    /// Builds a pair from its two parts.
    pub fn new(lo: T, hi: T) -> (r: WordLoHi<T>)
        ensures
            r.lo == lo,
            r.hi == hi,
    {
        WordLoHi { lo, hi }
    }

    /// The (lo, hi) pair of parts.
    pub fn to_lo_hi(self) -> (r: (T, T))
        ensures
            r.0 == self.lo,
            r.1 == self.hi,
    {
        (self.lo, self.hi)
    }
}

impl WordLoHi<Expression> {
    /// The symbolic zero word.
    pub fn zero() -> (r: WordLoHi<Expression>)
        ensures
            r.lo == Expression::Constant(Fp { lo: 0, hi: 0 }),
            r.hi == Expression::Constant(Fp { lo: 0, hi: 0 }),
    {
        WordLoHi {
            lo: Expression::Constant(Fp::zero()),
            hi: Expression::Constant(Fp::zero()),
        }
    }
}

} // verus!
