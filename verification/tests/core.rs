use snark_core::circuits::{
    is_prime, synthesize_circuit, DiscreteLogCircuit, LinearEquationCircuit, SemiPrimeCircuit,
    SudokuCircuit,
};
use snark_core::field::FieldElement;
use snark_core::lc::LinearCombination;
use snark_core::system::{ConstraintSystem, Mode};
use snark_core::Error;

fn fe(n: u64) -> FieldElement {
    FieldElement::from_u64(n)
}

#[test]
fn satisfied_witness_passes_local_check() {
    // A = [[2,1],[1,3]], b = [3,4], x = [1,1] satisfies the system
    let circuit = LinearEquationCircuit {
        a: vec![vec![2, 1], vec![1, 3]],
        b: vec![3, 4],
        x: vec![1, 1],
        len_b: 2,
        len_a: 2,
    };
    let cs = synthesize_circuit(&circuit, Mode::Witnessed).unwrap();
    assert_eq!(cs.check_satisfied(), Ok(()));
}

#[test]
fn unsatisfied_witness_fails_local_check() {
    // the mutated witness x = [2,1] violates the first equation
    let circuit = LinearEquationCircuit {
        a: vec![vec![2, 1], vec![1, 3]],
        b: vec![3, 4],
        x: vec![2, 1],
        len_b: 2,
        len_a: 2,
    };
    let cs = synthesize_circuit(&circuit, Mode::Witnessed).unwrap();
    assert_eq!(cs.check_satisfied(), Err(Error::ConstraintUnsatisfied));
}

#[test]
fn compilation_is_deterministic() {
    let circuit = DiscreteLogCircuit { x: None, g: 2, h: 32 };
    let mut cs1 = synthesize_circuit(&circuit, Mode::StructureOnly).unwrap();
    let mut cs2 = synthesize_circuit(&circuit, Mode::StructureOnly).unwrap();
    let r1 = cs1.compile();
    let r2 = cs2.compile();
    assert_eq!(r1.num_public, r2.num_public);
    assert_eq!(r1.num_witness, r2.num_witness);
    let same = |m1: &Vec<Vec<(usize, FieldElement)>>, m2: &Vec<Vec<(usize, FieldElement)>>| {
        assert_eq!(m1.len(), m2.len());
        for (r1, r2) in m1.iter().zip(m2.iter()) {
            assert_eq!(r1.len(), r2.len());
            for ((c1, v1), (c2, v2)) in r1.iter().zip(r2.iter()) {
                assert_eq!(c1, c2);
                assert!(v1.equals(v2));
            }
        }
    };
    same(&r1.a, &r2.a);
    same(&r1.b, &r2.b);
    same(&r1.c, &r2.c);
}

#[test]
fn sudoku_duplicate_in_row_fails() {
    let mut solution = [
        [5, 3, 4, 6, 7, 8, 9, 1, 2],
        [6, 7, 2, 1, 9, 5, 3, 4, 8],
        [1, 9, 8, 3, 4, 2, 5, 6, 7],
        [8, 5, 9, 7, 6, 1, 4, 2, 3],
        [4, 2, 6, 8, 5, 3, 7, 9, 1],
        [7, 1, 3, 9, 2, 4, 8, 5, 6],
        [9, 6, 1, 5, 3, 7, 2, 8, 4],
        [2, 8, 7, 4, 1, 9, 6, 3, 5],
        [3, 4, 5, 2, 8, 6, 1, 7, 9],
    ];
    solution[0][1] = 5; // duplicates the 5 already in row 0
    let circuit = SudokuCircuit { solution: Some(solution) };
    // the duplicate is caught before any proving work: the inequality
    // gadget's inverse hits a zero divisor
    let r = synthesize_circuit(&circuit, Mode::Witnessed);
    assert!(matches!(r, Err(Error::DivisionByZero)));
}

#[test]
fn not_equal_on_equal_values_is_division_by_zero() {
    let mut cs = ConstraintSystem::new(Mode::Witnessed);
    let a = cs.alloc_witness(Some(fe(5))).unwrap();
    let b = cs.alloc_witness(Some(fe(5))).unwrap();
    let a_lc = LinearCombination::from_variable(a);
    let b_lc = LinearCombination::from_variable(b);
    let r = cs.enforce_not_equal(&a_lc, &b_lc);
    assert_eq!(r, Err(Error::DivisionByZero));
}

#[test]
fn not_equal_on_distinct_values_is_satisfied() {
    let mut cs = ConstraintSystem::new(Mode::Witnessed);
    let a = cs.alloc_witness(Some(fe(5))).unwrap();
    let b = cs.alloc_witness(Some(fe(6))).unwrap();
    let a_lc = LinearCombination::from_variable(a);
    let b_lc = LinearCombination::from_variable(b);
    cs.enforce_not_equal(&a_lc, &b_lc).unwrap();
    assert_eq!(cs.check_satisfied(), Ok(()));
}

#[test]
fn range_check_boundary_fails_satisfiability() {
    // a witness of 256 cannot fit an 8-bit range constraint
    let mut cs = ConstraintSystem::new(Mode::Witnessed);
    let v = cs.alloc_witness(Some(fe(256))).unwrap();
    let v_lc = LinearCombination::from_variable(v);
    cs.range_check(&v_lc, 8).unwrap();
    assert_eq!(cs.check_satisfied(), Err(Error::ConstraintUnsatisfied));
}

#[test]
fn range_check_within_bound_is_satisfied() {
    let mut cs = ConstraintSystem::new(Mode::Witnessed);
    let v = cs.alloc_witness(Some(fe(255))).unwrap();
    let v_lc = LinearCombination::from_variable(v);
    cs.range_check(&v_lc, 8).unwrap();
    assert_eq!(cs.check_satisfied(), Ok(()));
}

#[test]
fn evaluate_computes_weighted_sum() {
    // 2*x + 3 with x = 5 evaluates to 13
    let mut cs = ConstraintSystem::new(Mode::Witnessed);
    let x = cs.alloc_witness(Some(fe(5))).unwrap();
    let mut lc = LinearCombination::new();
    lc.push_term(x, fe(2));
    let with_const = lc.plus(&LinearCombination::from_constant(fe(3)));
    let value = cs.evaluate(&with_const).unwrap();
    assert!(value.equals(&fe(13)));
    assert!(!value.equals(&fe(12)));
}

#[test]
fn evaluate_of_difference_cancels() {
    let mut cs = ConstraintSystem::new(Mode::Witnessed);
    let x = cs.alloc_witness(Some(fe(9))).unwrap();
    let x_lc = LinearCombination::from_variable(x);
    let d = x_lc.minus(&x_lc);
    let value = cs.evaluate(&d).unwrap();
    assert!(value.equals(&fe(0)));
}

#[test]
fn structure_only_defers_values() {
    let mut cs = ConstraintSystem::new(Mode::StructureOnly);
    let v = cs.alloc_witness(None).unwrap();
    let v_lc = LinearCombination::from_variable(v);
    // the constraint shape is still recorded
    cs.range_check(&v_lc, 4).unwrap();
    // but reading a concrete value fails, never defaulting to zero
    assert!(matches!(cs.evaluate(&v_lc), Err(Error::MissingAssignment)));
    assert_eq!(cs.check_satisfied(), Err(Error::MissingAssignment));
}

#[test]
fn missing_witness_value_is_rejected() {
    let mut cs = ConstraintSystem::new(Mode::Witnessed);
    assert_eq!(cs.alloc_witness(None), Err(Error::MissingAssignment));
    assert_eq!(cs.alloc_public(None), Err(Error::MissingAssignment));
}

#[test]
fn allocation_after_compile_is_rejected() {
    let mut cs = ConstraintSystem::new(Mode::Witnessed);
    cs.alloc_witness(Some(fe(1))).unwrap();
    let _r1cs = cs.compile();
    assert_eq!(cs.alloc_witness(Some(fe(2))), Err(Error::AllocationAfterFinalize));
    assert_eq!(cs.alloc_public(Some(fe(2))), Err(Error::AllocationAfterFinalize));
}

#[test]
fn oversized_linear_system_is_rejected() {
    let circuit = LinearEquationCircuit {
        a: vec![],
        b: vec![],
        x: vec![],
        len_b: 2000,
        len_a: 2000,
    };
    let r = synthesize_circuit(&circuit, Mode::Witnessed);
    assert!(matches!(r, Err(Error::BackendError)));
}

#[test]
fn discrete_log_local_satisfiability() {
    // 2^5 = 32 satisfies the constraints; 2^5 != 31 does not
    let good = DiscreteLogCircuit { x: Some(5), g: 2, h: 32 };
    let cs = synthesize_circuit(&good, Mode::Witnessed).unwrap();
    assert_eq!(cs.check_satisfied(), Ok(()));

    let bad = DiscreteLogCircuit { x: Some(5), g: 2, h: 31 };
    let cs2 = synthesize_circuit(&bad, Mode::Witnessed).unwrap();
    assert_eq!(cs2.check_satisfied(), Err(Error::ConstraintUnsatisfied));
}

#[test]
fn conditional_select_picks_by_bit() {
    let mut cs = ConstraintSystem::new(Mode::Witnessed);
    let bit1 = cs.alloc_witness(Some(fe(1))).unwrap();
    let t = cs.alloc_witness(Some(fe(10))).unwrap();
    let f = cs.alloc_witness(Some(fe(20))).unwrap();
    let bit1_lc = LinearCombination::from_variable(bit1);
    let t_lc = LinearCombination::from_variable(t);
    let f_lc = LinearCombination::from_variable(f);
    let chosen = cs.conditional_select(&bit1_lc, &t_lc, &f_lc).unwrap();
    assert!(cs.evaluate(&chosen).unwrap().equals(&fe(10)));

    let bit0 = cs.alloc_witness(Some(fe(0))).unwrap();
    let bit0_lc = LinearCombination::from_variable(bit0);
    let chosen0 = cs.conditional_select(&bit0_lc, &t_lc, &f_lc).unwrap();
    assert!(cs.evaluate(&chosen0).unwrap().equals(&fe(20)));
}

#[test]
fn enforce_boolean_accepts_bits_only() {
    let mut cs = ConstraintSystem::new(Mode::Witnessed);
    let zero = cs.alloc_witness(Some(fe(0))).unwrap();
    let one = cs.alloc_witness(Some(fe(1))).unwrap();
    cs.enforce_boolean(&LinearCombination::from_variable(zero));
    cs.enforce_boolean(&LinearCombination::from_variable(one));
    assert_eq!(cs.check_satisfied(), Ok(()));

    let two = cs.alloc_witness(Some(fe(2))).unwrap();
    cs.enforce_boolean(&LinearCombination::from_variable(two));
    assert_eq!(cs.check_satisfied(), Err(Error::ConstraintUnsatisfied));
}

#[test]
fn field_element_round_trips_through_bytes() {
    let v = fe(258);
    let bytes = v.to_le_bytes();
    assert_eq!(bytes.len(), 32);
    assert_eq!(bytes[0], 2);
    assert_eq!(bytes[1], 1);
    assert!(bytes[2..].iter().all(|&b| b == 0));
}

#[test]
fn is_prime_matches_trial_division() {
    assert!(!is_prime(0));
    assert!(!is_prime(1));
    assert!(is_prime(2));
    assert!(is_prime(3));
    assert!(!is_prime(4));
    assert!(is_prime(5));
    assert!(!is_prime(9));
    assert!(is_prime(65537));
    assert!(!is_prime(65536));
    assert!(!is_prime(4294967295));
}

#[test]
fn sudoku_out_of_range_cell_fails() {
    let mut solution = [
        [5, 3, 4, 6, 7, 8, 9, 1, 2],
        [6, 7, 2, 1, 9, 5, 3, 4, 8],
        [1, 9, 8, 3, 4, 2, 5, 6, 7],
        [8, 5, 9, 7, 6, 1, 4, 2, 3],
        [4, 2, 6, 8, 5, 3, 7, 9, 1],
        [7, 1, 3, 9, 2, 4, 8, 5, 6],
        [9, 6, 1, 5, 3, 7, 2, 8, 4],
        [2, 8, 7, 4, 1, 9, 6, 3, 5],
        [3, 4, 5, 2, 8, 6, 1, 7, 9],
    ];
    // 14 is distinct within its row, column and box, but outside [1,9]
    solution[0][0] = 14;
    let circuit = SudokuCircuit { solution: Some(solution) };
    let cs = synthesize_circuit(&circuit, Mode::Witnessed).unwrap();
    assert_eq!(cs.check_satisfied(), Err(Error::ConstraintUnsatisfied));
}

#[test]
fn mismatched_linear_dimensions_are_rejected() {
    let circuit = LinearEquationCircuit {
        a: vec![vec![2, 1], vec![1, 3]],
        b: vec![3, 4],
        x: vec![1],
        len_b: 2,
        len_a: 2,
    };
    let r = synthesize_circuit(&circuit, Mode::Witnessed);
    assert!(matches!(r, Err(Error::AllocationError)));
}

#[test]
fn semiprime_divisible_factor_is_division_by_zero() {
    // 4 is divisible by the trial prime 2
    let circuit = SemiPrimeCircuit { p: Some(4), q: Some(7), n: Some(28), trial_bound: 3 };
    let r = synthesize_circuit(&circuit, Mode::Witnessed);
    assert!(matches!(r, Err(Error::DivisionByZero)));
}
