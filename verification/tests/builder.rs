//! Constraint builder behavior: degree enforcement, conditional scoping,
//! set membership, word equality, and gating.

use zkevm_core::field::Fp;
use zkevm_core::expression::{Expression, WordLoHi};
use zkevm_core::challenges::Challenges;
use zkevm_core::cached_region::CachedRegion;
use zkevm_core::constraint_builder::{BaseConstraintBuilder, ConstructionFault};

fn advice(column: usize) -> Expression {
    Expression::Advice { column, rotation: 0 }
}

fn eval_region() -> CachedRegion {
    let ch = Challenges::construct().values(Fp::from_u64(2), Fp::from_u64(3));
    CachedRegion::new(0, 0, 4, 4, ch)
}

#[test]
fn accepts_degree_within_bound_and_rejects_above() {
    let mut cb = BaseConstraintBuilder::new(2);
    // degree 2: product of two cell queries.
    let quadratic = Expression::Product(Box::new(advice(0)), Box::new(advice(1)));
    assert!(cb.require_zero("quadratic", quadratic).is_ok());
    // degree 3 exceeds the bound of 2.
    let cubic = Expression::Product(
        Box::new(Expression::Product(Box::new(advice(0)), Box::new(advice(1)))),
        Box::new(advice(2)),
    );
    let r = cb.require_zero("cubic", cubic);
    assert!(matches!(
        r,
        Err(ConstructionFault::DegreeTooHigh { name: "cubic", degree: 3, max_degree: 2 })
    ));
    assert_eq!(cb.constraints.len(), 1);
}

#[test]
fn zero_max_degree_disables_checking() {
    let mut cb = BaseConstraintBuilder::new(0);
    let mut e = advice(0);
    for _ in 0..10 {
        e = Expression::Product(Box::new(e), Box::new(advice(1)));
    }
    assert!(cb.require_zero("deep", e).is_ok());
}

#[test]
fn boolean_gate_scenario() {
    // Builder with max_degree 4: require_boolean on a degree-1 cell under
    // a degree-1 condition gives a degree-3 constraint; a degree-1
    // selector raises it to 4 (accepted), a degree-2 selector would raise
    // it to 5 (rejected).
    let mut cb = BaseConstraintBuilder::new(4);
    assert!(cb.condition(advice(3)).is_ok());
    let x = advice(0);
    assert!(cb.require_boolean("flag", x).is_ok());
    cb.clear_condition();
    assert_eq!(cb.constraints[0].1.degree(), 3);
    let selector = advice(1);
    let gated = cb.gate(selector).unwrap();
    assert_eq!(gated.len(), 1);
    assert_eq!(gated[0].0, "flag");
    let selector2 = Expression::Product(Box::new(advice(1)), Box::new(advice(2)));
    assert!(matches!(
        cb.gate(selector2),
        Err(ConstructionFault::DegreeTooHigh { name: "flag", degree: 5, max_degree: 4 })
    ));
}

#[test]
fn condition_scales_constraints_and_does_not_nest() {
    let mut cb = BaseConstraintBuilder::new(0);
    let cond = advice(3);
    assert!(cb.condition(cond.clone()).is_ok());
    // Nested conditions are a construction fault.
    assert!(matches!(
        cb.condition(advice(2)),
        Err(ConstructionFault::NestedCondition)
    ));
    assert!(cb.require_zero("scoped", advice(0)).is_ok());
    // The pushed constraint is the condition times the expression.
    assert_eq!(
        cb.constraints[0].1,
        Expression::Product(Box::new(cond), Box::new(advice(0)))
    );
    cb.clear_condition();
    assert!(cb.require_zero("bare", advice(0)).is_ok());
    assert_eq!(cb.constraints[1].1, advice(0));
}

#[test]
fn require_equal_and_true_push_differences() {
    let mut cb = BaseConstraintBuilder::new(0);
    assert!(cb.require_equal("eq", advice(0), advice(1)).is_ok());
    assert_eq!(
        cb.constraints[0].1,
        Expression::Sum(
            Box::new(advice(0)),
            Box::new(Expression::Negated(Box::new(advice(1)))),
        )
    );
    assert!(cb.require_true("true", advice(2)).is_ok());
    let region = eval_region();
    // With all cells zero, `x - 1` evaluates to p - 1, nonzero.
    let v = cb.constraints[1].1.evaluate(&region, 0);
    assert!(!v.is_zero());
}

#[test]
fn equal_word_constrains_both_limbs_separately() {
    let mut cb = BaseConstraintBuilder::new(0);
    let lhs = WordLoHi::new(advice(0), advice(1));
    let rhs = WordLoHi::new(advice(2), advice(3));
    assert!(cb.require_equal_word("word", lhs, rhs).is_ok());
    assert_eq!(cb.constraints.len(), 2);
    assert_eq!(cb.constraints[0].0, "word");
    assert_eq!(cb.constraints[1].0, "word");
    let mut cb2 = BaseConstraintBuilder::new(0);
    let w = WordLoHi::new(advice(0), advice(1));
    assert!(cb2.require_zero_word("zero word", w).is_ok());
    assert_eq!(cb2.constraints.len(), 2);
}

#[test]
fn in_set_vanishes_on_members_and_not_on_outsiders() {
    let region = eval_region();
    let constant = |v: u64| Expression::Constant(Fp::from_u64(v));
    let set = vec![constant(4), constant(7), constant(9)];
    // Member: the product of differences vanishes.
    let mut cb = BaseConstraintBuilder::new(0);
    assert!(cb.require_in_set("member", constant(7), set.clone()).is_ok());
    assert!(cb.constraints[0].1.evaluate(&region, 0).is_zero());
    // Outsider: the product is nonzero.
    let mut cb2 = BaseConstraintBuilder::new(0);
    assert!(cb2.require_in_set("outsider", constant(5), set).is_ok());
    assert!(!cb2.constraints[0].1.evaluate(&region, 0).is_zero());
}

#[test]
fn in_set_on_empty_set_is_unsatisfiable() {
    // The empty product starts at one: the pushed constraint demands
    // 1 == 0 and can never be satisfied.
    let region = eval_region();
    let mut cb = BaseConstraintBuilder::new(0);
    let v = Expression::Constant(Fp::from_u64(123));
    assert!(cb.require_in_set("empty", v, vec![]).is_ok());
    let evaluated = cb.constraints[0].1.evaluate(&region, 0);
    assert_eq!(evaluated, Fp::one());
}

#[test]
fn validate_degree_and_batch_push() {
    let cb = BaseConstraintBuilder::new(3);
    assert!(cb.validate_degree(3, "ok").is_ok());
    assert!(matches!(
        cb.validate_degree(4, "too high"),
        Err(ConstructionFault::DegreeTooHigh { name: "too high", degree: 4, max_degree: 3 })
    ));
    let mut cb2 = BaseConstraintBuilder::new(1);
    let batch = vec![("a", advice(0)), ("b", advice(1))];
    assert!(cb2.add_constraints(batch).is_ok());
    assert_eq!(cb2.constraints.len(), 2);
    let bad = vec![
        ("fine", advice(0)),
        ("too big", Expression::Product(Box::new(advice(0)), Box::new(advice(1)))),
    ];
    assert!(cb2.add_constraints(bad).is_err());
}
