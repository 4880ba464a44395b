//! Windowed witness cache: assignment, rotation read-back, padding
//! replication, challenges, and the challenge manager.

use zkevm_core::field::Fp;
use zkevm_core::expression::Expression;
use zkevm_core::challenges::{Challenge, Challenges};
use zkevm_core::cached_region::{CachedRegion, Error};
use zkevm_core::util::{log2_ceil, SubCircuit, SubCircuitConfig};
use zkevm_core::word::Word;

fn challenges() -> Challenges<Fp> {
    Challenges::construct().values(Fp::from_u64(2), Fp::from_u64(3))
}

#[test]
fn fresh_region_is_zeroed() {
    let region = CachedRegion::new(1, 10, 3, 4, challenges());
    for col in 1..4 {
        for row in 10..14 {
            assert!(region.get_advice(row, col, 0).is_zero());
        }
    }
}

#[test]
fn assign_then_read_back_with_rotation() {
    let mut region = CachedRegion::new(0, 5, 2, 3, challenges());
    assert!(region.assign_advice(1, 6, Fp::from_u64(77)).is_ok());
    assert_eq!(region.get_advice(6, 1, 0), Fp::from_u64(77));
    // Read the same cell from the next row with rotation -1 and from the
    // previous row with rotation +1.
    assert_eq!(region.get_advice(7, 1, -1), Fp::from_u64(77));
    assert_eq!(region.get_advice(5, 1, 1), Fp::from_u64(77));
    // Re-assignment within the window overwrites the cache.
    assert!(region.assign_advice(1, 6, Fp::from_u64(88)).is_ok());
    assert_eq!(region.get_advice(6, 1, 0), Fp::from_u64(88));
}

#[test]
fn out_of_window_assignment_fails() {
    let mut region = CachedRegion::new(2, 5, 2, 3, challenges());
    assert_eq!(region.assign_advice(1, 6, Fp::one()), Err(Error::Synthesis));
    assert_eq!(region.assign_advice(4, 6, Fp::one()), Err(Error::Synthesis));
    assert_eq!(region.assign_advice(2, 4, Fp::one()), Err(Error::Synthesis));
    assert_eq!(region.assign_advice(2, 8, Fp::one()), Err(Error::Synthesis));
    assert!(region.assign_advice(3, 7, Fp::one()).is_ok());
}

#[test]
fn replication_matches_individual_reassignment() {
    // Assign a template row, then replicate it over the padding range
    // [5, 10) in one region and assign each padding row by hand in a
    // second region: the two grids must end up identical.
    let template: Vec<u64> = vec![9, 0, 4];
    let mut replicated = CachedRegion::new(0, 0, 3, 10, challenges());
    let mut by_hand = CachedRegion::new(0, 0, 3, 10, challenges());
    for (col, v) in template.iter().enumerate() {
        assert!(replicated.assign_advice(col, 0, Fp::from_u64(*v)).is_ok());
        assert!(by_hand.assign_advice(col, 0, Fp::from_u64(*v)).is_ok());
    }
    assert!(replicated.replicate_assignment_for_range(5, 10).is_ok());
    for (col, v) in template.iter().enumerate() {
        for row in 5..10 {
            assert!(by_hand.assign_advice(col, row, Fp::from_u64(*v)).is_ok());
        }
    }
    for col in 0..3 {
        for row in 0..10 {
            assert_eq!(
                replicated.get_advice(row, col, 0),
                by_hand.get_advice(row, col, 0),
            );
        }
    }
}

#[test]
fn replication_rejects_ranges_outside_the_window() {
    let mut region = CachedRegion::new(0, 2, 1, 4, challenges());
    assert!(region.assign_advice(0, 2, Fp::one()).is_ok());
    assert_eq!(region.replicate_assignment_for_range(1, 4), Err(Error::Synthesis));
    assert_eq!(region.replicate_assignment_for_range(3, 7), Err(Error::Synthesis));
    assert!(region.replicate_assignment_for_range(3, 6).is_ok());
    // An empty range replicates nothing and succeeds.
    assert!(region.replicate_assignment_for_range(9, 9).is_ok());
}

#[test]
fn region_exposes_bound_challenges_and_code_hash() {
    let region = CachedRegion::new(0, 0, 1, 1, challenges());
    assert_eq!(*region.challenges().keccak_input(), Fp::from_u64(2));
    assert_eq!(*region.challenges().lookup_input(), Fp::from_u64(3));
    let w = Word::from_limbs(5, 9);
    let pair = region.code_hash(w);
    assert_eq!(pair.lo, Fp::from_u64(5));
    assert_eq!(pair.hi, Fp::from_u64(9));
}

#[test]
fn challenge_manager_phases_and_forms() {
    let handles = Challenges::construct();
    assert_eq!(*handles.keccak_input(), Challenge { index: 0, phase: 1 });
    assert_eq!(*handles.lookup_input(), Challenge { index: 1, phase: 2 });
    let (first, second) = handles.indexed();
    assert_eq!(first.index, 0);
    assert_eq!(second.index, 1);
    let exprs = handles.exprs();
    assert_eq!(
        *exprs.keccak_input(),
        Expression::Challenge(Challenge { index: 0, phase: 1 })
    );
    let values = handles.values(Fp::from_u64(4), Fp::from_u64(6));
    assert_eq!(*values.keccak_input(), Fp::from_u64(4));
    assert_eq!(*values.lookup_input(), Fp::from_u64(6));
}

#[test]
fn challenge_powers_ascend() {
    let region = CachedRegion::new(0, 0, 1, 1, challenges());
    let exprs = Challenges::construct().exprs();
    let powers = exprs.keccak_powers_of_randomness(4);
    assert_eq!(powers.len(), 4);
    // With the first challenge bound to 2: powers 2, 4, 8, 16.
    let expected: Vec<u64> = vec![2, 4, 8, 16];
    for (p, e) in powers.iter().zip(expected.iter()) {
        assert_eq!(p.evaluate(&region, 0), Fp::from_u64(*e));
    }
    let lookup_powers = exprs.lookup_input_powers_of_randomness(2);
    assert_eq!(lookup_powers[1].evaluate(&region, 0), Fp::from_u64(9));
    assert!(exprs.keccak_powers_of_randomness(0).is_empty());
}

#[test]
fn expression_degree_accounting() {
    let advice = Expression::Advice { column: 0, rotation: 0 };
    assert_eq!(advice.degree(), 1);
    assert_eq!(Expression::Constant(Fp::one()).degree(), 0);
    let challenge = Expression::Challenge(Challenge { index: 0, phase: 1 });
    assert_eq!(challenge.degree(), 0);
    let product = Expression::Product(Box::new(advice.clone()), Box::new(advice.clone()));
    assert_eq!(product.degree(), 2);
    let sum = Expression::Sum(Box::new(product.clone()), Box::new(advice.clone()));
    assert_eq!(sum.degree(), 2);
    let negated = Expression::Negated(Box::new(sum));
    assert_eq!(negated.degree(), 2);
    let scaled = Expression::Scaled(Box::new(negated), Fp::from_u64(3));
    assert_eq!(scaled.degree(), 2);
}

struct RowConfig {
    column: usize,
}

impl SubCircuitConfig for RowConfig {
    type ConfigArgs = usize;

    fn new(column: usize) -> Self {
        RowConfig { column }
    }
}

struct DoubledInput {
    input: u64,
}

impl SubCircuit for DoubledInput {
    type Config = RowConfig;

    fn unusable_rows() -> usize {
        0
    }

    fn instance(&self) -> Vec<Vec<Fp>> {
        vec![vec![Fp::from_u64(self.input)]]
    }

    fn synthesize_sub(
        &self,
        config: &RowConfig,
        challenges: &Challenges<Fp>,
        region: &mut CachedRegion,
    ) -> Result<(), Error> {
        let scaled = Fp::from_u64(self.input).mul(challenges.keccak_input());
        region.assign_advice(config.column, 0, scaled)
    }
}

#[test]
fn sub_circuit_assigns_through_the_window() {
    let config = RowConfig::new(0);
    let circuit = DoubledInput { input: 21 };
    let ch = challenges();
    let mut region = CachedRegion::new(0, 0, 1, 1, ch);
    assert!(circuit.synthesize_sub(&config, &ch, &mut region).is_ok());
    // The first challenge is bound to 2, so the cell holds 42.
    assert_eq!(region.get_advice(0, 0, 0), Fp::from_u64(42));
    assert_eq!(circuit.instance(), vec![vec![Fp::from_u64(21)]]);
    assert_eq!(DoubledInput::unusable_rows(), 0);
}

#[test]
fn log2_ceil_values() {
    assert_eq!(log2_ceil(1), 0);
    assert_eq!(log2_ceil(2), 1);
    assert_eq!(log2_ceil(3), 2);
    assert_eq!(log2_ceil(4), 2);
    assert_eq!(log2_ceil(5), 3);
    assert_eq!(log2_ceil(1024), 10);
    assert_eq!(log2_ceil(1025), 11);
    assert_eq!(log2_ceil(u32::MAX as usize), 32);
}
