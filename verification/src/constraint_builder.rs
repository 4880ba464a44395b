//! Accumulates named, degree-bounded zero-constraints with an optional
//! activation condition, and turns them into a selector-gated gate set.

use vstd::prelude::*;
use vstd::arithmetic::div_mod::{lemma_small_mod, lemma_mod_multiples_vanish};
use crate::field::{Fp, Field, fr_modulus};
use crate::expression::{Expression, WordLoHi, spec_degree, eval};

verus! {

/// A fatal circuit-configuration defect: the circuit cannot be compiled.
/// Detected while constraints are accumulated, never at proving time.
#[derive(Clone, Copy, PartialEq, Debug)]
pub enum ConstructionFault {
    /// A constraint's degree exceeds the builder's configured bound.
    DegreeTooHigh { name: &'static str, degree: usize, max_degree: usize },
    /// A scoping condition is already active; conditions do not nest.
    NestedCondition,
}

/// Accumulates named polynomial constraints that must equal zero, each
/// validated against a maximum degree (zero disables checking), with at
/// most one active scaling condition.
pub struct BaseConstraintBuilder {
    pub constraints: Vec<(&'static str, Expression)>,
    pub max_degree: usize,
    pub condition: Option<Expression>,
}

/// The membership constraint for `value` over `set`: the product of the
/// differences `value - s` over all elements, starting from the
/// multiplicative identity — for an empty set the unsatisfiable constant
/// one.
pub open spec fn in_set_expr(value: Expression, set: Seq<Expression>) -> Expression
    decreases set.len(),
{
    if set.len() == 0 {
        Expression::Constant(Fp { lo: 1, hi: 0 })
    } else {
        Expression::Product(
            Box::new(in_set_expr(value, set.drop_last())),
            Box::new(Expression::Sum(
                Box::new(value),
                Box::new(Expression::Negated(Box::new(set.last()))),
            )),
        )
    }
}

impl BaseConstraintBuilder {
    /// The degree bound leaves room for the saturated degree measure.
    pub open spec fn wf(&self) -> bool {
        self.max_degree < usize::MAX
    }

    /// Whether a constraint of degree `d` passes the configured bound.
    pub open spec fn degree_ok(&self, d: nat) -> bool {
        self.max_degree == 0 || d <= self.max_degree
    }

    /// The expression actually pushed for `e`: scaled by the active
    /// condition when one is set.
    pub open spec fn scoped(&self, e: Expression) -> Expression {
        match self.condition {
            Some(c) => Expression::Product(Box::new(c), Box::new(e)),
            None => e,
        }
    }

    /// The builder's bookkeeping fields are unchanged.
    pub open spec fn same_config(&self, other: &BaseConstraintBuilder) -> bool {
        self.max_degree == other.max_degree && self.condition == other.condition
    }

    /// A fresh builder bound to `max_degree` (zero disables checking).
    pub fn new(max_degree: usize) -> (r: BaseConstraintBuilder)
        requires
            max_degree < usize::MAX,
        ensures
            r.wf(),
            r.constraints@.len() == 0,
            r.max_degree == max_degree,
            r.condition is None,
    {
        BaseConstraintBuilder { constraints: Vec::new(), max_degree, condition: None }
    }

    /// Validates a constraint's degree against the bound: accepts every
    /// degree within the bound and rejects every degree above it.
    pub fn validate_degree(&self, degree: usize, name: &'static str) -> (r: Result<
        (),
        ConstructionFault,
    >)
        ensures
            r is Ok <==> self.degree_ok(degree as nat),
            r matches Err(f) ==> f == (ConstructionFault::DegreeTooHigh {
                name,
                degree,
                max_degree: self.max_degree,
            }),
    {
        if self.max_degree > 0 && degree > self.max_degree {
            Err(ConstructionFault::DegreeTooHigh { name, degree, max_degree: self.max_degree })
        } else {
            Ok(())
        }
    }

    /// Pushes `(name, e)` — scaled by the active condition if one is set —
    /// after validating its degree: the constraint is accepted exactly
    /// when its degree passes the bound.
    pub fn add_constraint(&mut self, name: &'static str, constraint: Expression) -> (r: Result<
        (),
        ConstructionFault,
    >)
        requires
            old(self).wf(),
        ensures
            final(self).wf(),
            final(self).same_config(old(self)),
            r is Ok <==> old(self).degree_ok(spec_degree(old(self).scoped(constraint))),
            r is Ok ==> final(self).constraints@ == old(self).constraints@.push(
                (name, old(self).scoped(constraint)),
            ),
            r matches Err(f) ==> f is DegreeTooHigh && *final(self) == *old(self),
    {
        let scoped: Expression = match &self.condition {
            Some(c) => Expression::Product(Box::new(c.clone()), Box::new(constraint)),
            None => constraint,
        };
        let d = scoped.degree();
        if self.max_degree > 0 && d > self.max_degree {
            return Err(ConstructionFault::DegreeTooHigh {
                name,
                degree: d,
                max_degree: self.max_degree,
            });
        }
        self.constraints.push((name, scoped));
        Ok(())
    }

    /// Pushes `constraint` as a named zero-constraint under the current scope.
    pub fn require_zero(&mut self, name: &'static str, constraint: Expression) -> (r: Result<
        (),
        ConstructionFault,
    >)
        requires
            old(self).wf(),
        ensures
            final(self).wf(),
            final(self).same_config(old(self)),
            r is Ok <==> old(self).degree_ok(spec_degree(old(self).scoped(constraint))),
            r is Ok ==> final(self).constraints@ == old(self).constraints@.push(
                (name, old(self).scoped(constraint)),
            ),
            r matches Err(f) ==> f is DegreeTooHigh && *final(self) == *old(self),
    {
        self.add_constraint(name, constraint)
    }

    /// Demands that `lhs` equal `rhs`, as the zero-constraint `lhs - rhs`.
    pub fn require_equal(&mut self, name: &'static str, lhs: Expression, rhs: Expression) -> (r:
        Result<(), ConstructionFault>)
        requires
            old(self).wf(),
        ensures
            final(self).wf(),
            final(self).same_config(old(self)),
            r is Ok <==> old(self).degree_ok(
                spec_degree(old(self).scoped(difference_expr(lhs, rhs))),
            ),
            r is Ok ==> final(self).constraints@ == old(self).constraints@.push(
                (name, old(self).scoped(difference_expr(lhs, rhs))),
            ),
            r matches Err(f) ==> f is DegreeTooHigh && *final(self) == *old(self),
    {
        self.add_constraint(
            name,
            Expression::Sum(Box::new(lhs), Box::new(Expression::Negated(Box::new(rhs)))),
        )
    }

    /// Demands that `value` be boolean, as the zero-constraint
    /// `value * (1 - value)`.
    pub fn require_boolean(&mut self, name: &'static str, value: Expression) -> (r: Result<
        (),
        ConstructionFault,
    >)
        requires
            old(self).wf(),
        ensures
            final(self).wf(),
            final(self).same_config(old(self)),
            r is Ok <==> old(self).degree_ok(spec_degree(old(self).scoped(boolean_expr(value)))),
            r is Ok ==> final(self).constraints@ == old(self).constraints@.push(
                (name, old(self).scoped(boolean_expr(value))),
            ),
            r matches Err(f) ==> f is DegreeTooHigh && *final(self) == *old(self),
    {
        let one = Expression::Constant(Fp::one());
        let complement = Expression::Sum(
            Box::new(one),
            Box::new(Expression::Negated(Box::new(value.clone()))),
        );
        self.add_constraint(name, Expression::Product(Box::new(value), Box::new(complement)))
    }

    /// Demands that `value` equal one.
    pub fn require_true(&mut self, name: &'static str, value: Expression) -> (r: Result<
        (),
        ConstructionFault,
    >)
        requires
            old(self).wf(),
        ensures
            final(self).wf(),
            final(self).same_config(old(self)),
            r is Ok <==> old(self).degree_ok(
                spec_degree(
                    old(self).scoped(difference_expr(value, Expression::Constant(Fp { lo: 1, hi: 0 }))),
                ),
            ),
            r is Ok ==> final(self).constraints@ == old(self).constraints@.push(
                (
                    name,
                    old(self).scoped(difference_expr(value, Expression::Constant(Fp { lo: 1, hi: 0 }))),
                ),
            ),
            r matches Err(f) ==> f is DegreeTooHigh && *final(self) == *old(self),
    {
        self.require_equal(name, value, Expression::Constant(Fp::one()))
    }

    /// Demands that `value` lie in `set`, as the zero-constraint given by
    /// the product of the differences; for an empty set the pushed
    /// constraint is the constant one, unconditionally unsatisfiable.
    pub fn require_in_set(&mut self, name: &'static str, value: Expression, set: Vec<Expression>)
        -> (r: Result<(), ConstructionFault>)
        requires
            old(self).wf(),
        ensures
            final(self).wf(),
            final(self).same_config(old(self)),
            r is Ok <==> old(self).degree_ok(
                spec_degree(old(self).scoped(in_set_expr(value, set@))),
            ),
            r is Ok ==> final(self).constraints@ == old(self).constraints@.push(
                (name, old(self).scoped(in_set_expr(value, set@))),
            ),
            r matches Err(f) ==> f is DegreeTooHigh && *final(self) == *old(self),
    {
        let mut acc = Expression::Constant(Fp::one());
        let mut i: usize = 0;
        while i < set.len()
            invariant
                0 <= i <= set@.len(),
                acc == in_set_expr(value, set@.take(i as int)),
            decreases set@.len() - i,
        {
            let diff = Expression::Sum(
                Box::new(value.clone()),
                Box::new(Expression::Negated(Box::new(set[i].clone()))),
            );
            acc = Expression::Product(Box::new(acc), Box::new(diff));
            proof {
                assert(set@.take(i + 1).drop_last() =~= set@.take(i as int));
                assert(set@.take(i + 1).last() == set@[i as int]);
            }
            i = i + 1;
        }
        proof {
            assert(set@.take(set@.len() as int) =~= set@);
        }
        self.add_constraint(name, acc)
    }

    /// Demands that a symbolic word be zero, limb by limb.
    pub fn require_zero_word(&mut self, name: &'static str, word: WordLoHi<Expression>) -> (r:
        Result<(), ConstructionFault>)
        requires
            old(self).wf(),
        ensures
            final(self).wf(),
            final(self).same_config(old(self)),
            r is Ok <==> (old(self).degree_ok(
                spec_degree(
                    old(self).scoped(difference_expr(word.lo, Expression::Constant(Fp { lo: 0, hi: 0 }))),
                ),
            ) && old(self).degree_ok(
                spec_degree(
                    old(self).scoped(difference_expr(word.hi, Expression::Constant(Fp { lo: 0, hi: 0 }))),
                ),
            )),
            r is Ok ==> final(self).constraints@ == old(self).constraints@.push(
                (
                    name,
                    old(self).scoped(difference_expr(word.lo, Expression::Constant(Fp { lo: 0, hi: 0 }))),
                ),
            ).push(
                (
                    name,
                    old(self).scoped(difference_expr(word.hi, Expression::Constant(Fp { lo: 0, hi: 0 }))),
                ),
            ),
            r matches Err(f) ==> f is DegreeTooHigh,
    {
        self.require_equal_word(name, word, WordLoHi::zero())
    }

    /// Demands that two symbolic words be equal, comparing the two limb
    /// pairs independently — never folded into one field-sized comparison,
    /// which could identify distinct 256-bit values modulo the field.
    pub fn require_equal_word(
        &mut self,
        name: &'static str,
        lhs: WordLoHi<Expression>,
        rhs: WordLoHi<Expression>,
    ) -> (r: Result<(), ConstructionFault>)
        requires
            old(self).wf(),
        ensures
            final(self).wf(),
            final(self).same_config(old(self)),
            r is Ok <==> (old(self).degree_ok(
                spec_degree(old(self).scoped(difference_expr(lhs.lo, rhs.lo))),
            ) && old(self).degree_ok(
                spec_degree(old(self).scoped(difference_expr(lhs.hi, rhs.hi))),
            )),
            r is Ok ==> final(self).constraints@ == old(self).constraints@.push(
                (name, old(self).scoped(difference_expr(lhs.lo, rhs.lo))),
            ).push((name, old(self).scoped(difference_expr(lhs.hi, rhs.hi)))),
            r matches Err(f) ==> f is DegreeTooHigh,
            r is Err && !old(self).degree_ok(
                spec_degree(old(self).scoped(difference_expr(lhs.lo, rhs.lo))),
            ) ==> *final(self) == *old(self),
            r is Err && old(self).degree_ok(
                spec_degree(old(self).scoped(difference_expr(lhs.lo, rhs.lo))),
            ) ==> final(self).constraints@ == old(self).constraints@.push(
                (name, old(self).scoped(difference_expr(lhs.lo, rhs.lo))),
            ),
    {
        let (lhs_lo, lhs_hi) = lhs.to_lo_hi();
        let (rhs_lo, rhs_hi) = rhs.to_lo_hi();
        let first = self.require_equal(name, lhs_lo, rhs_lo);
        if let Err(f) = first {
            return Err(f);
        }
        self.require_equal(name, lhs_hi, rhs_hi)
    }

    /// Pushes a batch of named constraints in order, validating each;
    /// stops at the first constraint whose degree exceeds the bound.
    pub fn add_constraints(&mut self, constraints: Vec<(&'static str, Expression)>) -> (r: Result<
        (),
        ConstructionFault,
    >)
        requires
            old(self).wf(),
        ensures
            final(self).wf(),
            final(self).same_config(old(self)),
            r is Ok <==> (forall|i: int|
                0 <= i < constraints@.len() ==> old(self).degree_ok(
                    spec_degree(old(self).scoped(#[trigger] constraints@[i].1)),
                )),
            r is Ok ==> final(self).constraints@ == old(self).constraints@
                + constraints@.map_values(
                |p: (&'static str, Expression)| (p.0, old(self).scoped(p.1)),
            ),
            r matches Err(f) ==> f is DegreeTooHigh,
            r is Err ==> exists|k: int|
                0 <= k < constraints@.len() && !old(self).degree_ok(
                    spec_degree(old(self).scoped(#[trigger] constraints@[k].1)),
                ) && final(self).constraints@ == old(self).constraints@
                    + constraints@.map_values(
                    |p: (&'static str, Expression)| (p.0, old(self).scoped(p.1)),
                ).take(k),
    {
        let ghost mapped = constraints@.map_values(
            |p: (&'static str, Expression)| (p.0, old(self).scoped(p.1)),
        );
        let n = constraints.len();
        let mut i: usize = 0;
        while i < n
            invariant
                0 <= i <= n,
                n == constraints@.len(),
                old(self).wf(),
                self.wf(),
                self.same_config(old(self)),
                mapped == constraints@.map_values(
                    |p: (&'static str, Expression)| (p.0, old(self).scoped(p.1)),
                ),
                self.constraints@ == old(self).constraints@ + mapped.take(i as int),
                forall|j: int|
                    0 <= j < i ==> old(self).degree_ok(
                        spec_degree(old(self).scoped(#[trigger] constraints@[j].1)),
                    ),
            decreases n - i,
        {
            let cname: &'static str = constraints[i].0;
            let e = constraints[i].1.clone();
            let res = self.add_constraint(cname, e);
            if let Err(f) = res {
                proof {
                    assert(!old(self).degree_ok(
                        spec_degree(old(self).scoped(constraints@[i as int].1)),
                    ));
                }
                return Err(f);
            }
            proof {
                assert(mapped.take(i + 1) =~= mapped.take(i as int).push(mapped[i as int]));
                assert(old(self).constraints@ + mapped.take(i + 1) =~= (old(self).constraints@
                    + mapped.take(i as int)).push(mapped[i as int]));
            }
            i = i + 1;
        }
        proof {
            assert(mapped.take(n as int) =~= mapped);
        }
        Ok(())
    }

    /// Activates `condition` for the constraints pushed until it is
    /// cleared; fails if a condition is already active — conditions do
    /// not nest.
    pub fn condition(&mut self, condition: Expression) -> (r: Result<(), ConstructionFault>)
        ensures
            final(self).constraints@ == old(self).constraints@,
            final(self).max_degree == old(self).max_degree,
            r is Ok <==> old(self).condition is None,
            r is Ok ==> final(self).condition == Some(condition),
            r is Err ==> *final(self) == *old(self) && r == Err::<(),
                ConstructionFault,
            >(ConstructionFault::NestedCondition),
    {
        if self.condition.is_some() {
            return Err(ConstructionFault::NestedCondition);
        }
        self.condition = Some(condition);
        Ok(())
    }

    /// Clears the active condition.
    pub fn clear_condition(&mut self)
        ensures
            final(self).constraints@ == old(self).constraints@,
            final(self).max_degree == old(self).max_degree,
            final(self).condition is None,
    {
        self.condition = None;
    }

    /// Every accumulated constraint multiplied by `selector`, re-validated
    /// against the degree bound: succeeds exactly when every product stays
    /// within the bound.
    pub fn gate(&self, selector: Expression) -> (r: Result<
        Vec<(&'static str, Expression)>,
        ConstructionFault,
    >)
        requires
            self.wf(),
        ensures
            r is Ok <==> (forall|i: int|
                0 <= i < self.constraints@.len() ==> self.degree_ok(
                    spec_degree(selector) + spec_degree(#[trigger] self.constraints@[i].1),
                )),
            r matches Ok(v) ==> (v@.len() == self.constraints@.len() && forall|i: int|
                0 <= i < v@.len() ==> #[trigger] v@[i] == (
                    self.constraints@[i].0,
                    Expression::Product(Box::new(selector), Box::new(self.constraints@[i].1)),
                )),
            r matches Err(f) ==> f is DegreeTooHigh && (exists|i: int|
                0 <= i < self.constraints@.len() && !self.degree_ok(
                    spec_degree(selector) + spec_degree(#[trigger] self.constraints@[i].1),
                )),
    {
        let mut out: Vec<(&'static str, Expression)> = Vec::new();
        let mut i: usize = 0;
        let n = self.constraints.len();
        while i < n
            invariant
                self.wf(),
                0 <= i <= n,
                n == self.constraints@.len(),
                out@.len() == i,
                forall|j: int|
                    0 <= j < i ==> self.degree_ok(
                        spec_degree(selector) + spec_degree(#[trigger] self.constraints@[j].1),
                    ),
                forall|j: int|
                    0 <= j < i ==> #[trigger] out@[j] == (
                        self.constraints@[j].0,
                        Expression::Product(Box::new(selector), Box::new(self.constraints@[j].1)),
                    ),
            decreases n - i,
        {
            let cname: &'static str = self.constraints[i].0;
            let prod = Expression::Product(
                Box::new(selector.clone()),
                Box::new(self.constraints[i].1.clone()),
            );
            let d = prod.degree();
            if self.max_degree > 0 && d > self.max_degree {
                return Err(ConstructionFault::DegreeTooHigh {
                    name: cname,
                    degree: d,
                    max_degree: self.max_degree,
                });
            }
            out.push((cname, prod));
            i = i + 1;
        }
        Ok(out)
    }
}

/// The zero-constraint expressing `lhs == rhs`.
pub open spec fn difference_expr(lhs: Expression, rhs: Expression) -> Expression {
    Expression::Sum(Box::new(lhs), Box::new(Expression::Negated(Box::new(rhs))))
}

/// The zero-constraint expressing that `value` is boolean.
pub open spec fn boolean_expr(value: Expression) -> Expression {
    Expression::Product(
        Box::new(value),
        Box::new(Expression::Sum(
            Box::new(Expression::Constant(Fp { lo: 1, hi: 0 })),
            Box::new(Expression::Negated(Box::new(value))),
        )),
    )
}

/// On an empty set the membership constraint evaluates to one: it is
/// unconditionally unsatisfiable.
pub proof fn lemma_in_set_empty(
    value: Expression,
    advice: Seq<Seq<Fp>>,
    col_start: int,
    row: int,
    kc: Fp,
    lc: Fp,
)
    ensures
        eval(in_set_expr(value, Seq::empty()), advice, col_start, row, kc, lc) == 1,
{
    lemma_small_mod(1, fr_modulus());
}

/// The membership constraint evaluates to zero for every value that
/// evaluates equal to some element of the set.
pub proof fn lemma_in_set_member(
    value: Expression,
    set: Seq<Expression>,
    j: int,
    advice: Seq<Seq<Fp>>,
    col_start: int,
    row: int,
    kc: Fp,
    lc: Fp,
)
    requires
        0 <= j < set.len(),
        eval(set[j], advice, col_start, row, kc, lc) == eval(value, advice, col_start, row, kc, lc),
    ensures
        eval(in_set_expr(value, set), advice, col_start, row, kc, lc) == 0,
    decreases set.len(),
{
    let m = fr_modulus();
    let ep = eval(in_set_expr(value, set.drop_last()), advice, col_start, row, kc, lc);
    let ev = eval(value, advice, col_start, row, kc, lc);
    let es = eval(set.last(), advice, col_start, row, kc, lc);
    if j == set.len() - 1 {
        crate::expression::lemma_eval_bound(value, advice, col_start, row, kc, lc);
        crate::expression::lemma_eval_bound(set.last(), advice, col_start, row, kc, lc);
        let en = eval(Expression::Negated(Box::new(set.last())), advice, col_start, row, kc, lc);
        assert(en == ((m - es) % (m as int)) as nat);
        if es == 0 {
            lemma_mod_multiples_vanish(1, 0, m as int);
            assert(en == 0);
        } else {
            lemma_small_mod((m - es) as nat, m);
        }
        assert((ev + en) % m == 0) by {
            if es != 0 {
                lemma_mod_multiples_vanish(1, 0, m as int);
            }
        }
        assert((ep * 0) % m == 0) by {
            lemma_small_mod(0, m);
        }
    } else {
        assert(set.drop_last()[j] == set[j]);
        lemma_in_set_member(value, set.drop_last(), j, advice, col_start, row, kc, lc);
        let ef = eval(
            Expression::Sum(
                Box::new(value),
                Box::new(Expression::Negated(Box::new(set.last()))),
            ),
            advice,
            col_start,
            row,
            kc,
            lc,
        );
        assert((0 * ef) % m == 0) by {
            lemma_small_mod(0, m);
        }
    }
}

} // verus!
