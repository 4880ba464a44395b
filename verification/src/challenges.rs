//! The two phase-gated random scalars used for soundness: declared once at
//! configuration time, usable symbolically inside constraints, and bound to
//! concrete values exactly once per proof instance.

use vstd::prelude::*;
use crate::field::Fp;
use crate::expression::Expression;

verus! {

/// A handle to a random scalar revealed only after every column of an
/// earlier synthesis phase is committed; `phase` is the first phase in
/// which the scalar is usable, the earliest trace phase being phase zero.
#[derive(Clone, Copy, PartialEq, Eq, Structural, Debug)]
pub struct Challenge {
    pub index: usize,
    pub phase: u8,
}

/// The two challenges, in each of their three forms: handles at
/// configuration time, expressions inside constraints, concrete field
/// elements during witness computation.
#[derive(Clone, Copy, Debug)]
pub struct Challenges<T> {
    pub keccak_input: T,
    pub lookup_input: T,
}

impl Challenges<Challenge> {
    /// Declares the two challenges: the first usable after the earliest
    /// phase is closed, the second after the following phase is closed.
    pub fn construct() -> (r: Challenges<Challenge>)
        ensures
            r.keccak_input == (Challenge { index: 0, phase: 1 }),
            r.lookup_input == (Challenge { index: 1, phase: 2 }),
    {
        Challenges {
            keccak_input: Challenge { index: 0, phase: 1 },
            lookup_input: Challenge { index: 1, phase: 2 },
        }
    }

    /// The two challenges as expressions, for use inside constraints.
    pub fn exprs(&self) -> (r: Challenges<Expression>)
        ensures
            r.keccak_input == Expression::Challenge(self.keccak_input),
            r.lookup_input == Expression::Challenge(self.lookup_input),
    {
        Challenges {
            keccak_input: Expression::Challenge(self.keccak_input),
            lookup_input: Expression::Challenge(self.lookup_input),
        }
    }

    /// Binds the two challenges to the concrete scalars produced by the
    /// transcript once the gating phases are committed.
    pub fn values(&self, keccak_input: Fp, lookup_input: Fp) -> (r: Challenges<Fp>)
        ensures
            r.keccak_input == keccak_input,
            r.lookup_input == lookup_input,
    {
        Challenges { keccak_input, lookup_input }
    }
}

impl<T> Challenges<T> {
    /// The challenge gated after the phase committing the hashed inputs.
    pub fn keccak_input(&self) -> (r: &T)
        ensures
            *r == self.keccak_input,
    {
        &self.keccak_input
    }

    /// The challenge gated after the later phase, used for lookups.
    pub fn lookup_input(&self) -> (r: &T)
        ensures
            *r == self.lookup_input,
    {
        &self.lookup_input
    }

    /// Both challenges, ordered by challenge index.
    pub fn indexed(&self) -> (r: (&T, &T))
        ensures
            *r.0 == self.keccak_input,
            *r.1 == self.lookup_input,
    {
        (&self.keccak_input, &self.lookup_input)
    }
}

impl Challenges<Expression> {
    /// The ascending powers `base^1 .. base^count` of a challenge
    /// expression, built by repeated multiplication.
    fn powers_of(base: &Expression, count: usize) -> (r: Vec<Expression>)
        ensures
            r@.len() == count,
            count > 0 ==> r@[0] == *base,
            forall|i: int| 1 <= i < count ==> #[trigger] r@[i] == Expression::Product(
                Box::new(*base), Box::new(r@[i - 1])),
    {
        let mut out: Vec<Expression> = Vec::new();
        if count == 0 {
            return out;
        }
        out.push(base.clone());
        let mut i: usize = 1;
        while i < count
            invariant
                1 <= i <= count,
                out@.len() == i,
                out@[0] == *base,
                forall|j: int| 1 <= j < i ==> #[trigger] out@[j] == Expression::Product(
                    Box::new(*base), Box::new(out@[j - 1])),
            decreases count - i,
        {
            let prev = &out[i - 1];
            let next = Expression::Product(Box::new(base.clone()), Box::new(prev.clone()));
            out.push(next);
            i = i + 1;
        }
        out
    }

    /// Ascending powers of the hashed-input challenge.
    pub fn keccak_powers_of_randomness(&self, count: usize) -> (r: Vec<Expression>)
        ensures
            r@.len() == count,
            count > 0 ==> r@[0] == self.keccak_input,
            forall|i: int| 1 <= i < count ==> #[trigger] r@[i] == Expression::Product(
                Box::new(self.keccak_input), Box::new(r@[i - 1])),
    {
        Self::powers_of(&self.keccak_input, count)
    }

    /// Ascending powers of the lookup challenge.
    pub fn lookup_input_powers_of_randomness(&self, count: usize) -> (r: Vec<Expression>)
        ensures
            r@.len() == count,
            count > 0 ==> r@[0] == self.lookup_input,
            forall|i: int| 1 <= i < count ==> #[trigger] r@[i] == Expression::Product(
                Box::new(self.lookup_input), Box::new(r@[i - 1])),
    {
        Self::powers_of(&self.lookup_input, count)
    }
}

} // verus!
