use evalcheck::arith_expr::ArithExpr;
use evalcheck::arithmetic::Flags;
use evalcheck::binary_field::{BinaryField1b, BinaryField2b};
use evalcheck::bitwise::{and, combine, or, xor, BitwiseOp};
use evalcheck::builder::ConstraintSystemBuilder;
use evalcheck::constraint_system::{ConstraintSystem, Flush, FlushDirection};
use evalcheck::error::{Error, WitnessError};
use evalcheck::field::Field;
use evalcheck::oracle::{
    MultilinearOracleSet, MultilinearPolyOracle, OracleError, OracleVariant, ProjectionVariant,
    ShiftVariant, TransparentPoly, MAX_N_VARS,
};
use evalcheck::sumcheck::ConstraintSet;
use evalcheck::transparent::step_down;
use evalcheck::u32fib::{fibonacci_words, shift_words, u32fib};
use evalcheck::words::{bits_of_words, words_of_bits};

fn f(v: u8) -> BinaryField2b {
    BinaryField2b::new(v)
}

fn col(values: &[u8]) -> Vec<BinaryField2b> {
    values.iter().map(|v| f(*v)).collect()
}

fn vals(values: &[BinaryField2b]) -> Vec<u8> {
    values.iter().map(|v| v.val()).collect()
}

fn committed(builder: &mut ConstraintSystemBuilder<BinaryField2b>, n_vars: usize) -> usize {
    builder.add_oracle(MultilinearPolyOracle { n_vars, variant: OracleVariant::Committed }).unwrap()
}

fn two_inputs() -> (ConstraintSystemBuilder<BinaryField2b>, usize, usize) {
    let mut builder = ConstraintSystemBuilder::new_with_witness();
    let x = committed(&mut builder, 2);
    let y = committed(&mut builder, 2);
    builder.set_column(x, col(&[0, 0, 1, 1]));
    builder.set_column(y, col(&[0, 1, 0, 1]));
    (builder, x, y)
}

fn eval_constraint(builder: &ConstraintSystemBuilder<BinaryField2b>, which: usize, row: usize) -> u8 {
    let constraint = &builder.constraints[which];
    let vars: Vec<BinaryField2b> = constraint
        .oracle_ids
        .iter()
        .map(|id| builder.column(*id).unwrap().unwrap()[row])
        .collect();
    constraint.composition.evaluate(&vars).val()
}

#[test]
fn and_gadget_multiplies_the_rows() {
    let (mut builder, x, y) = two_inputs();
    let z = and(&mut builder, "and", x, y).unwrap();
    assert_eq!(z, 2);
    assert!(matches!(builder.oracles.oracle(z).variant, OracleVariant::Committed));
    assert_eq!(builder.oracles.n_vars(z), 2);
    assert_eq!(vals(&builder.column(z).unwrap().unwrap()), vec![0, 0, 0, 1]);
    assert_eq!(builder.constraints.len(), 1);
    assert_eq!(builder.constraints[0].name, "bitwise_and");
    assert_eq!(builder.constraints[0].oracle_ids, vec![x, y, z]);
    for row in 0..4 {
        assert_eq!(eval_constraint(&builder, 0, row), 0);
    }
    assert!(builder.namespace.is_empty());
}

#[test]
fn or_gadget_matches_the_disjunction_on_bits() {
    let (mut builder, x, y) = two_inputs();
    let z = or(&mut builder, "or", x, y).unwrap();
    assert_eq!(vals(&builder.column(z).unwrap().unwrap()), vec![0, 1, 1, 1]);
    assert_eq!(builder.constraints.len(), 1);
    assert_eq!(builder.constraints[0].name, "bitwise_or");
    for row in 0..4 {
        assert_eq!(eval_constraint(&builder, 0, row), 0);
    }
}

#[test]
fn xor_gadget_is_a_linear_combination() {
    let (mut builder, x, y) = two_inputs();
    let z = xor(&mut builder, "xor", x, y).unwrap();
    assert_eq!(vals(&builder.column(z).unwrap().unwrap()), vec![0, 1, 1, 0]);
    assert_eq!(builder.constraints.len(), 0);
    match &builder.oracles.oracle(z).variant {
        OracleVariant::LinearCombination { offset, terms } => {
            assert_eq!(offset.val(), 0);
            assert_eq!(terms.iter().map(|t| (t.0, t.1.val())).collect::<Vec<_>>(), vec![(x, 1), (y, 1)]);
        }
        _ => panic!("the exclusive disjunction is the sum of its inputs"),
    }
}

#[test]
fn gadgets_work_on_any_field_elements() {
    assert_eq!(combine(BitwiseOp::And, f(2), f(3)).val(), 1);
    assert_eq!(combine(BitwiseOp::Xor, f(2), f(3)).val(), 1);
    assert_eq!(combine(BitwiseOp::Or, f(2), f(3)).val(), 0);
}

#[test]
fn gadgets_without_witness_add_oracles_and_constraints_only() {
    let mut builder: ConstraintSystemBuilder<BinaryField2b> = ConstraintSystemBuilder::new();
    let x = committed(&mut builder, 3);
    let y = committed(&mut builder, 3);
    let z = and(&mut builder, "and", x, y).unwrap();
    assert_eq!(z, 2);
    assert_eq!(builder.constraints.len(), 1);
    assert_eq!(builder.column(z), Ok(None));
    assert!(builder.witness.is_none());
}

#[test]
fn gadgets_fail_on_bad_inputs() {
    let (mut builder, x, _y) = two_inputs();
    let other = committed(&mut builder, 3);
    assert_eq!(and(&mut builder, "and", x, 9), Err(Error::Oracle(OracleError::InvalidOracleId)));
    let (mut builder, x, _y) = two_inputs();
    let other_arity = committed(&mut builder, 3);
    assert_eq!(other, other_arity);
    assert_eq!(
        or(&mut builder, "or", x, other_arity),
        Err(Error::Oracle(OracleError::IncorrectNumberOfVariables))
    );
    let (mut builder, x, _y) = two_inputs();
    let bare = committed(&mut builder, 2);
    assert_eq!(
        xor(&mut builder, "xor", x, bare),
        Err(Error::Witness(WitnessError::MissingWitness { id: bare }))
    );
    assert_eq!(
        xor(&mut builder, "xor", bare, x),
        Err(Error::Witness(WitnessError::MissingWitness { id: bare }))
    );
}

#[test]
fn namespaces_nest() {
    let mut builder: ConstraintSystemBuilder<BinaryField2b> = ConstraintSystemBuilder::new();
    builder.push_namespace("outer");
    builder.push_namespace("inner");
    assert_eq!(builder.namespace, vec!["outer".to_string(), "inner".to_string()]);
    builder.pop_namespace();
    assert_eq!(builder.namespace, vec!["outer".to_string()]);
    builder.pop_namespace();
    builder.pop_namespace();
    assert!(builder.namespace.is_empty());
    assert_eq!(builder.log_rows(0, 0), Err(Error::Oracle(OracleError::InvalidOracleId)));
}

#[test]
fn expressions_are_evaluated() {
    let x = ArithExpr::var(0);
    let y = ArithExpr::var(1);
    let expr = x.times(y).plus(ArithExpr::Const(f(3))).minus(ArithExpr::var(0));
    // 2 * 3 + 3 - 2 = 1 + 3 + 2 = 0
    assert_eq!(expr.evaluate(&col(&[2, 3])).val(), 0);
    assert_eq!(ArithExpr::var(1).evaluate(&col(&[2, 3])).val(), 3);
}

#[test]
fn words_are_spread_into_bits_and_gathered_again() {
    let words = vec![0x8000_0001u32, 0x0000_00f0, 0xdead_beef];
    let bits: Vec<BinaryField1b> = bits_of_words(&words);
    assert_eq!(bits.len(), 96);
    assert_eq!(bits[0].val(), 1);
    assert_eq!(bits[1].val(), 0);
    assert_eq!(bits[31].val(), 1);
    assert_eq!(bits[32 + 3].val(), 0);
    assert_eq!(bits[32 + 4].val(), 1);
    for (k, bit) in bits.iter().enumerate() {
        assert_eq!(bit.val() as u32, (words[k / 32] >> (k % 32)) & 1);
    }
    assert_eq!(words_of_bits(&bits), words);
    // rows beyond the last full word are dropped
    assert_eq!(words_of_bits(&bits[..40].to_vec()), vec![0x8000_0001u32]);
}

#[test]
fn fibonacci_words_wrap_around() {
    assert_eq!(fibonacci_words(1, 1, 6), vec![1, 1, 2, 3, 5, 8]);
    assert_eq!(fibonacci_words(0xffff_ffff, 2, 4), vec![0xffff_ffff, 2, 1, 3]);
    assert_eq!(fibonacci_words(7, 9, 2), vec![7, 9]);
    assert_eq!(shift_words(&vec![1, 2, 3, 4], 1), vec![2, 3, 4, 0]);
    assert_eq!(shift_words(&vec![1, 2, 3, 4], 2), vec![3, 4, 0, 0]);
    assert_eq!(shift_words(&vec![1, 2, 3, 4], 9), vec![0, 0, 0, 0]);
}

#[test]
fn step_down_is_one_before_the_index() {
    let mut builder: ConstraintSystemBuilder<BinaryField2b> = ConstraintSystemBuilder::new_with_witness();
    let id = step_down(&mut builder, "enabled", 2, 3).unwrap();
    assert_eq!(vals(&builder.column(id).unwrap().unwrap()), vec![1, 1, 1, 0]);
    assert!(matches!(
        builder.oracles.oracle(id).variant,
        OracleVariant::Transparent { poly: TransparentPoly::StepDown { index: 3 } }
    ));
    assert_eq!(step_down(&mut builder, "enabled", 2, 5), Err(Error::Oracle(OracleError::ArgumentRangeError)));
    assert_eq!(
        step_down(&mut builder, "enabled", MAX_N_VARS + 1, 0),
        Err(Error::Oracle(OracleError::TooManyVariables))
    );
    assert_eq!(step_down(&mut builder, "enabled", 2, 4), Ok(1));
    assert_eq!(builder.oracles.size(), 2);
}

fn word_column(builder: &ConstraintSystemBuilder<BinaryField1b>, id: usize) -> Vec<u32> {
    words_of_bits(&builder.column(id).unwrap().unwrap())
}

fn adder_inputs() -> (ConstraintSystemBuilder<BinaryField1b>, usize, usize, Vec<u32>, Vec<u32>) {
    let xs = vec![0xffff_ffffu32, 5, 0x8000_0000, 0x0f0f_0f0f];
    let ys = vec![1u32, 7, 0x8000_0000, 0x00ff_00ff];
    let mut builder = ConstraintSystemBuilder::new_with_witness();
    let x = builder.add_oracle(MultilinearPolyOracle { n_vars: 7, variant: OracleVariant::Committed }).unwrap();
    let y = builder.add_oracle(MultilinearPolyOracle { n_vars: 7, variant: OracleVariant::Committed }).unwrap();
    builder.set_column(x, bits_of_words(&xs));
    builder.set_column(y, bits_of_words(&ys));
    (builder, x, y, xs, ys)
}

#[test]
fn adder_gadget_adds_word_by_word() {
    let (mut builder, x, y, xs, ys) = adder_inputs();
    let z = evalcheck::arithmetic::u32::add(&mut builder, "sum", x, y, Flags::Unchecked).unwrap();
    assert_eq!(z, 4);
    let sums: Vec<u32> = xs.iter().zip(ys.iter()).map(|(a, b)| a.wrapping_add(*b)).collect();
    assert_eq!(word_column(&builder, z), sums);
    assert_eq!(sums, vec![0, 12, 0, 0x100e_100e]);
    let cins = word_column(&builder, 3);
    let couts = word_column(&builder, 2);
    for i in 0..4 {
        assert_eq!(cins[i], xs[i] ^ ys[i] ^ sums[i]);
        let carry = if (xs[i] as u64 + ys[i] as u64) >> 32 == 1 { 1u32 << 31 } else { 0 };
        assert_eq!(couts[i], carry | (cins[i] >> 1));
    }
    // the carries belong to the inputs: the constraint holds on every row
    assert_eq!(builder.constraints.len(), 1);
    assert_eq!(builder.constraints[0].name, "sum");
    assert_eq!(builder.constraints[0].oracle_ids, vec![x, y, 3, 2]);
    for row in 0..128 {
        let vars: Vec<BinaryField1b> = builder.constraints[0]
            .oracle_ids
            .iter()
            .map(|id| builder.column(*id).unwrap().unwrap()[row])
            .collect();
        assert_eq!(builder.constraints[0].composition.evaluate(&vars).val(), 0);
    }
    assert!(matches!(
        builder.oracles.oracle(3).variant,
        OracleVariant::Shifted { inner: 2, shift_offset: 1, block_size: 5, shift_variant: ShiftVariant::LogicalLeft }
    ));
    assert_eq!(builder.oracles.size(), 5);
    assert!(builder.oracles.is_wf());
}

#[test]
fn checked_adder_asserts_the_last_carry() {
    let (mut builder, x, y, _xs, _ys) = adder_inputs();
    let z = evalcheck::arithmetic::u32::add(&mut builder, "sum", x, y, Flags::Checked).unwrap();
    assert_eq!(z, 4);
    assert_eq!(builder.oracles.size(), 6);
    assert_eq!(builder.constraints.len(), 2);
    assert_eq!(builder.constraints[1].name, "overflow");
    assert_eq!(builder.constraints[1].oracle_ids, vec![5]);
    match &builder.oracles.oracle(5).variant {
        OracleVariant::Projected { inner, values, variant } => {
            assert_eq!(*inner, 2);
            assert_eq!(values.iter().map(|v| v.val()).collect::<Vec<_>>(), vec![1, 1, 1, 1, 1]);
            assert_eq!(*variant, ProjectionVariant::FirstVars);
        }
        _ => panic!("the last carry is a projection of the carries out"),
    }
    // the first and the third sum overflow
    let last: Vec<u8> = builder.column(5).unwrap().unwrap().iter().map(|b| b.val()).collect();
    assert_eq!(last, vec![1, 0, 1, 0]);
}

#[test]
fn adder_needs_whole_words_and_both_columns() {
    let mut builder: ConstraintSystemBuilder<BinaryField1b> = ConstraintSystemBuilder::new();
    let x = builder.add_oracle(MultilinearPolyOracle { n_vars: 4, variant: OracleVariant::Committed }).unwrap();
    assert_eq!(
        evalcheck::arithmetic::u32::add(&mut builder, "sum", x, x, Flags::Unchecked),
        Err(Error::Oracle(OracleError::NotEnoughVariables))
    );
    let (mut builder, x, _y, _xs, _ys) = adder_inputs();
    let bare = builder.add_oracle(MultilinearPolyOracle { n_vars: 7, variant: OracleVariant::Committed }).unwrap();
    assert_eq!(
        evalcheck::arithmetic::u32::add(&mut builder, "sum", x, bare, Flags::Unchecked),
        Err(Error::Witness(WitnessError::MissingWitness { id: bare }))
    );
    assert_eq!(
        evalcheck::arithmetic::u32::add(&mut builder, "sum", x, 40, Flags::Unchecked),
        Err(Error::Oracle(OracleError::InvalidOracleId))
    );
}

#[test]
fn fibonacci_gadget_commits_to_a_fibonacci_sequence() {
    let mut builder: ConstraintSystemBuilder<BinaryField1b> = ConstraintSystemBuilder::new_with_witness();
    let current = u32fib(&mut builder, "fib", 8).unwrap();
    assert_eq!(current, 0);
    assert_eq!(builder.oracles.size(), 9);
    assert!(builder.oracles.is_wf());
    let words = word_column(&builder, current);
    assert_eq!(words.len(), 8);
    for i in 2..8 {
        assert_eq!(words[i], words[i - 1].wrapping_add(words[i - 2]));
    }
    assert_eq!(word_column(&builder, 1), shift_words(&words, 1));
    assert_eq!(word_column(&builder, 2), shift_words(&words, 2));
    // the step-down switches the last two words off
    let enabled: Vec<u8> = builder.column(3).unwrap().unwrap().iter().map(|b| b.val()).collect();
    assert_eq!(enabled, vec![1, 1, 1, 1, 1, 1, 0, 0]);
    // where it is on, the sum of a word and the next is the word after next
    let sums = word_column(&builder, 6);
    let after_next = word_column(&builder, 2);
    for i in 0..6 {
        assert_eq!(sums[i], after_next[i]);
    }
    assert!(matches!(builder.oracles.oracle(7).variant, OracleVariant::Packed { inner: 6, log_degree: 5 }));
    assert!(matches!(builder.oracles.oracle(8).variant, OracleVariant::Packed { inner: 2, log_degree: 5 }));
    assert_eq!(builder.oracles.n_vars(7), 3);
    assert_eq!(builder.constraints.len(), 2);
    assert_eq!(builder.constraints[0].name, "sum");
    assert_eq!(builder.constraints[1].name, "step");
    assert_eq!(builder.constraints[1].oracle_ids, vec![7, 8, 3]);
    assert!(builder.namespace.is_empty());
}

#[test]
fn fibonacci_gadget_refuses_too_many_variables() {
    let mut builder: ConstraintSystemBuilder<BinaryField1b> = ConstraintSystemBuilder::new();
    assert_eq!(
        u32fib(&mut builder, "fib", MAX_N_VARS + 1),
        Err(Error::Oracle(OracleError::TooManyVariables))
    );
    assert_eq!(u32fib(&mut builder, "fib", 6), Ok(0));
    assert_eq!(builder.oracles.size(), 9);
    assert!(builder.witness.is_none());
}

#[test]
fn constraint_system_keeps_its_parts() {
    let mut oracles: MultilinearOracleSet<BinaryField2b> = MultilinearOracleSet::new();
    oracles.add_committed(2).unwrap();
    let system = ConstraintSystem {
        oracles,
        table_constraints: vec![ConstraintSet { n_vars: 2, constraints: vec![] }],
        non_zero_oracle_ids: vec![0],
        flushes: vec![Flush { oracles: vec![0], channel_id: 1, direction: FlushDirection::Push, count: 4 }],
        max_channel_id: 1,
    };
    let same = system.no_base_constraints();
    assert_eq!(same.oracles.size(), 1);
    assert_eq!(same.table_constraints.len(), 1);
    assert_eq!(same.table_constraints[0].n_vars, 2);
    assert_eq!(same.non_zero_oracle_ids, vec![0]);
    assert_eq!(same.flushes.len(), 1);
    assert_eq!(same.flushes[0].direction, FlushDirection::Push);
    assert_eq!(same.max_channel_id, 1);
}
