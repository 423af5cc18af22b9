use ark_bls12_381::{Bls12_381, Fr};
use ark_ff::PrimeField;
use ark_relations::r1cs::{
    ConstraintSynthesizer, ConstraintSystemRef, LinearCombination as ArkLc, SynthesisError,
    Variable as ArkVar,
};
use ark_snark::{CircuitSpecificSetupSNARK, SNARK};
use ark_std::rand::rngs::StdRng;
use ark_std::rand::SeedableRng;

use snark_core::circuits::{
    synthesize_circuit, DiscreteLogCircuit, LinearEquationCircuit, SemiPrimeCircuit, SudokuCircuit,
};
use snark_core::compile::R1cs;
use snark_core::field::FieldElement;
use snark_core::system::Mode;

fn to_fr(fe: &FieldElement) -> Fr {
    Fr::from_le_bytes_mod_order(&fe.to_le_bytes())
}

/// Replays a compiled R1CS into an arkworks constraint system so the
/// Groth16 backend can consume it.
struct Replay {
    num_public: usize,
    num_witness: usize,
    a: Vec<Vec<(usize, Fr)>>,
    b: Vec<Vec<(usize, Fr)>>,
    c: Vec<Vec<(usize, Fr)>>,
    assignment: Option<Vec<Fr>>,
}

fn replay_of(r1cs: &R1cs, assignment: Option<Vec<Fr>>) -> Replay {
    let conv = |m: &Vec<Vec<(usize, FieldElement)>>| -> Vec<Vec<(usize, Fr)>> {
        m.iter()
            .map(|row| row.iter().map(|(col, fe)| (*col, to_fr(fe))).collect())
            .collect()
    };
    Replay {
        num_public: r1cs.num_public,
        num_witness: r1cs.num_witness,
        a: conv(&r1cs.a),
        b: conv(&r1cs.b),
        c: conv(&r1cs.c),
        assignment,
    }
}

impl ConstraintSynthesizer<Fr> for Replay {
    fn generate_constraints(self, cs: ConstraintSystemRef<Fr>) -> Result<(), SynthesisError> {
        let assignment = self.assignment;
        let mut vars: Vec<ArkVar> = vec![ArkVar::One];
        for i in 0..self.num_public {
            let value = assignment.as_ref().map(|a| a[1 + i]);
            let v = cs.new_input_variable(|| value.ok_or(SynthesisError::AssignmentMissing))?;
            vars.push(v);
        }
        for j in 0..self.num_witness {
            let value = assignment.as_ref().map(|a| a[1 + self.num_public + j]);
            let v = cs.new_witness_variable(|| value.ok_or(SynthesisError::AssignmentMissing))?;
            vars.push(v);
        }
        let mk = |row: &Vec<(usize, Fr)>| -> ArkLc<Fr> {
            let mut lc = ArkLc::zero();
            for (col, coeff) in row {
                lc = lc + (*coeff, vars[*col]);
            }
            lc
        };
        for i in 0..self.a.len() {
            cs.enforce_constraint(mk(&self.a[i]), mk(&self.b[i]), mk(&self.c[i]))?;
        }
        Ok(())
    }
}

/// Runs a full proof session for the circuit: setup from a
/// structure-only synthesis, local satisfiability check, proof, and
/// verification against the given public inputs.
fn prove_and_verify<C: snark_core::circuits::CircuitDefinition>(circuit: &C) -> (bool, Vec<Fr>) {
    let mut rng = StdRng::seed_from_u64(0u64);
    let mut cs_s = synthesize_circuit(circuit, Mode::StructureOnly).unwrap();
    let r1cs_s = cs_s.compile();
    let (pk, vk) =
        Groth16::circuit_specific_setup(replay_of(&r1cs_s, None), &mut rng).unwrap();

    let mut cs_w = synthesize_circuit(circuit, Mode::Witnessed).unwrap();
    cs_w.check_satisfied().unwrap();
    let publics: Vec<Fr> = cs_w.public_inputs().iter().map(to_fr).collect();
    let assignment: Vec<Fr> = cs_w.full_assignment().iter().map(to_fr).collect();
    let r1cs_w = cs_w.compile();
    let proof = Groth16::prove(&pk, replay_of(&r1cs_w, Some(assignment)), &mut rng).unwrap();
    let ok = Groth16::verify(&vk, &publics, &proof).unwrap();
    (ok, publics)
}

type Groth16 = ark_groth16::Groth16<Bls12_381>;

#[test]
fn test_linear_equation_circuit() {
    let circuit = LinearEquationCircuit {
        a: vec![vec![2, 1], vec![1, 3]],
        b: vec![3, 4],
        x: vec![1, 1],
        len_b: 2,
        len_a: 2,
    };
    let (is_correct, publics) = prove_and_verify(&circuit);
    assert!(is_correct);
    // public inputs appear in allocation order: each row of A, then b
    let expected: Vec<Fr> = [2u64, 1, 3, 1, 3, 4].iter().map(|&v| Fr::from(v)).collect();
    assert_eq!(publics, expected);
}

#[test]
fn test_discrete_log_circuit() {
    let g = 2u64;
    let x = 5u64;
    let h = 32u64; // 2^5
    let circuit = DiscreteLogCircuit { x: Some(x), g, h };
    let (is_valid, publics) = prove_and_verify(&circuit);
    assert!(is_valid);
    assert_eq!(publics, vec![Fr::from(g), Fr::from(h)]);
}

#[test]
fn test_semi_prime_circuit() {
    let p = 3u64;
    let q = 7u64;
    let n = p * q;
    let circuit = SemiPrimeCircuit { p: Some(p), q: Some(q), n: Some(n), trial_bound: 3 };
    let (is_valid, publics) = prove_and_verify(&circuit);
    assert!(is_valid);
    assert_eq!(publics, vec![Fr::from(n)]);
}

#[test]
fn test_sudoku_circuit() {
    let solution = [
        [5, 3, 4, 6, 7, 8, 9, 1, 2],
        [6, 7, 2, 1, 9, 5, 3, 4, 8],
        [1, 9, 8, 3, 4, 2, 5, 6, 7],
        [8, 5, 9, 7, 6, 1, 4, 2, 3],
        [4, 2, 6, 8, 5, 3, 7, 9, 1],
        [7, 1, 3, 9, 2, 4, 8, 5, 6],
        [9, 6, 1, 5, 3, 7, 2, 8, 4],
        [2, 8, 7, 4, 1, 9, 6, 3, 5],
        [3, 4, 5, 2, 8, 6, 1, 7, 9],
    ];
    let circuit = SudokuCircuit { solution: Some(solution) };
    let (is_valid, publics) = prove_and_verify(&circuit);
    assert!(is_valid);
    assert!(publics.is_empty());
}

#[test]
fn test_public_input_reordering_rejected() {
    let circuit = LinearEquationCircuit {
        a: vec![vec![2, 1], vec![1, 3]],
        b: vec![3, 4],
        x: vec![1, 1],
        len_b: 2,
        len_a: 2,
    };
    let mut rng = StdRng::seed_from_u64(0u64);
    let mut cs_s = synthesize_circuit(&circuit, Mode::StructureOnly).unwrap();
    let r1cs_s = cs_s.compile();
    let (pk, vk) = Groth16::circuit_specific_setup(replay_of(&r1cs_s, None), &mut rng).unwrap();
    let mut cs_w = synthesize_circuit(&circuit, Mode::Witnessed).unwrap();
    cs_w.check_satisfied().unwrap();
    let mut publics: Vec<Fr> = cs_w.public_inputs().iter().map(to_fr).collect();
    let assignment: Vec<Fr> = cs_w.full_assignment().iter().map(to_fr).collect();
    let r1cs_w = cs_w.compile();
    let proof = Groth16::prove(&pk, replay_of(&r1cs_w, Some(assignment)), &mut rng).unwrap();
    // reordering the public-input vector must never verify as true
    publics.swap(0, 2);
    let verdict = Groth16::verify(&vk, &publics, &proof);
    assert!(!verdict.unwrap_or(false));
}
