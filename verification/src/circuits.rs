//! Demonstration circuits: consumers of the constraint-system core.
//!
//! Each circuit implements [`CircuitDefinition`] and is synthesized
//! twice per proof session: once in `StructureOnly` mode for setup and
//! once in `Witnessed` mode for proving. Circuit inputs are plain
//! integers; the synthesis routines embed them into the field.

use vstd::prelude::*;

verus! {

use crate::field::{fe_from_u64, FieldElement};
use crate::lc::{lc_int, lc_wf, LinearCombination, Variable};
use crate::system::{constraint_wf, cs_wf, ConstraintSystem, Mode};
use crate::Error;

/// The largest matrix dimension the linear-equation demo accepts; a
/// larger system is refused as exceeding the supported size.
pub const MAX_DIMENSION: usize = 1024;

/// The fixed, public bit width used for discrete-log exponents.
pub const EXPONENT_BITS: usize = 64;

/// The bit width used to range-check remainders in the trial-division
/// gadget of the semiprime circuit.
pub const REMAINDER_BITS: usize = 32;

/// The largest trial-division bound the semiprime demo accepts; a
/// larger bound is refused as exceeding the supported circuit size.
pub const MAX_TRIAL_BOUND: u32 = 65536;

/// A user-supplied synthesis routine: invoked once against a fresh
/// system to build the constraint structure (for setup, without
/// values), and once more with concrete values supplied (for proving).
pub trait CircuitDefinition {
    fn synthesize(&self, cs: &mut ConstraintSystem) -> (r: Result<(), Error>)
        requires
            cs_wf(old(cs)@),
            !old(cs)@.finalized,
            old(cs)@.num_public == 0,
            old(cs)@.num_witness == 0,
            old(cs)@.constraints.len() == 0,
        ensures
            cs_wf(final(cs)@),
            final(cs)@.mode == old(cs)@.mode,
    ;
}

/// Synthesizes a circuit against a fresh system in the given mode: the
/// first half of a proof session's pipeline.
pub fn synthesize_circuit<C: CircuitDefinition>(circuit: &C, mode: Mode) -> (r: Result<
    ConstraintSystem,
    Error,
>)
    ensures
        r matches Ok(cs) ==> cs_wf(cs@) && cs@.mode == mode,
{
    let mut cs = ConstraintSystem::new(mode);
    match circuit.synthesize(&mut cs) {
        Ok(()) => Ok(cs),
        Err(e) => Err(e),
    }
}

/// Whether `n` has no divisor strictly between `1` and itself.
pub open spec fn is_prime_spec(n: nat) -> bool {
    n >= 2 && forall|d: nat| 2 <= d < n ==> #[trigger] (n % d) != 0
}

/// Primality by trial division up to the square root.
pub fn is_prime(n: u32) -> (r: bool)
    ensures
        r == is_prime_spec(n as nat),
{
    if n <= 1 {
        proof {
            assert(!is_prime_spec(n as nat));
        }
        return false;
    }
    let mut i: u32 = 2;
    let mut past_root = false;
    while i < 65536 && !past_root
        invariant
            2 <= i <= 65536,
            n >= 2,
            forall|d: nat| 2 <= d < i ==> #[trigger] ((n as nat) % d) != 0,
            past_root ==> (i as int) * (i as int) > n as int,
        decreases 65536 - i, if past_root { 0int } else { 1int },
    {
        proof {
            assert((i as int) * (i as int) < 4294967296int) by (nonlinear_arith)
                requires
                    0 <= i < 65536,
            ;
        }
        if i * i > n {
            past_root = true;
        } else {
            if n % i == 0 {
                proof {
                    assert((n as nat) % (i as nat) == 0);
                    assert(i < n) by (nonlinear_arith)
                        requires
                            (i as int) * (i as int) <= n as int,
                            2 <= i,
                    ;
                }
                return false;
            }
            i = i + 1;
        }
    }
    proof {
        assert forall|d: nat| 2 <= d < n implies #[trigger] ((n as nat) % d) != 0 by {
            if (n as nat) % d == 0 {
                if d < i {
                } else {
                    let q = (n as nat) / d;
                    vstd::arithmetic::div_mod::lemma_fundamental_div_mod(n as int, d as int);
                    assert(n as int == d * q);
                    assert(2 <= q && q < i && (n as nat) % q == 0) by (nonlinear_arith)
                        requires
                            n as int == d * q,
                            d < n,
                            2 <= d,
                            d >= i,
                            (i as int) * (i as int) > n as int || i == 65536,
                            2 <= i,
                            n < 0x100000000,
                    ;
                    assert((n as nat) % q != 0);
                    assert(false);
                }
            }
        }
    }
    true
}

/// Proves knowledge of a solution `x` to the public linear system
/// `A · x = b`. The entries of `A` and `b` are public inputs allocated
/// row-major, one row of `A` then its entry of `b`; the solution vector
/// is the witness.
pub struct LinearEquationCircuit {
    pub a: Vec<Vec<u64>>,
    pub b: Vec<u64>,
    pub x: Vec<u64>,
    pub len_b: usize,
    pub len_a: usize,
}

impl LinearEquationCircuit {
    /// The integer sum of the first `j` products of row `i` with the
    /// stored solution vector.
    pub open spec fn row_sum(self, i: int, j: int) -> int
        decreases j,
    {
        if j <= 0 {
            0
        } else {
            self.row_sum(i, j - 1) + self.a@[i]@[j - 1] * self.x@[j - 1]
        }
    }

    /// Whether the stored dimensions are mutually consistent.
    pub open spec fn shapes_ok(self) -> bool {
        &&& self.a@.len() == self.len_b
        &&& self.b@.len() == self.len_b
        &&& self.x@.len() == self.len_a
        &&& forall|i: int| 0 <= i < self.len_b ==> (#[trigger] self.a@[i])@.len() == self.len_a
    }

    /// Builds the constraint system for `A · x = b`: per row `i`, the
    /// entries `a[i][0..]` and then `b[i]` are allocated as public
    /// inputs (in that order), one product constraint per entry relates
    /// them to the witness solution, and one equality constraint
    /// enforces the row sum.
    #[verifier::rlimit(100)]
    #[verifier::spinoff_prover]
    pub fn build_constraints(&self, cs: &mut ConstraintSystem) -> (r: Result<(), Error>)
        requires
            cs_wf(old(cs)@),
            !old(cs)@.finalized,
            old(cs)@.num_public == 0,
            old(cs)@.num_witness == 0,
            old(cs)@.constraints.len() == 0,
        ensures
            cs_wf(final(cs)@),
            final(cs)@.mode == old(cs)@.mode,
            !final(cs)@.finalized,
            (r == Err::<(), Error>(Error::BackendError)) <==> (self.len_a > MAX_DIMENSION
                || self.len_b > MAX_DIMENSION),
            r is Ok <==> (self.len_a <= MAX_DIMENSION && self.len_b <= MAX_DIMENSION
                && self.shapes_ok()),
            r is Err ==> (r == Err::<(), Error>(Error::BackendError) || r == Err::<(), Error>(
                Error::AllocationError,
            )),
            r is Ok ==> {
                &&& final(cs)@.num_public == self.len_b * (self.len_a + 1)
                &&& final(cs)@.num_witness == self.len_a + self.len_b * self.len_a
                &&& final(cs)@.constraints.len() == self.len_b * (self.len_a + 1)
                &&& (old(cs)@.mode == Mode::Witnessed ==> {
                    &&& (forall|i2: int, j: int|
                        0 <= i2 < self.len_b && 0 <= j < self.len_a
                            ==> crate::system::constraint_satisfied(
                            #[trigger] final(cs)@.constraints[i2 * (self.len_a + 1) + j],
                            final(cs)@.pubs,
                            final(cs)@.wits,
                        ))
                    &&& (forall|i2: int|
                        0 <= i2 < self.len_b ==> (crate::system::constraint_satisfied(
                            #[trigger] final(cs)@.constraints[i2 * (self.len_a + 1)
                                + self.len_a],
                            final(cs)@.pubs,
                            final(cs)@.wits,
                        ) <==> self.row_sum(i2, self.len_a as int)
                            % crate::field::field_modulus() == self.b@[i2] as int))
                    &&& (forall|i2: int, j: int|
                        0 <= i2 < self.len_b && 0 <= j < self.len_a ==> final(cs)@.pubs[i2 * (
                        self.len_a + 1) + j] == #[trigger] self.a@[i2]@[j] as int)
                    &&& (forall|i2: int|
                        0 <= i2 < self.len_b ==> final(cs)@.pubs[i2 * (self.len_a + 1)
                            + self.len_a] == #[trigger] self.b@[i2] as int)
                    &&& (forall|k: int|
                        0 <= k < self.len_a ==> #[trigger] final(cs)@.wits[k] == self.x@[k] as int)
                })
            },
    {
        if self.len_a > MAX_DIMENSION || self.len_b > MAX_DIMENSION {
            return Err(Error::BackendError);
        }
        if self.a.len() != self.len_b || self.b.len() != self.len_b || self.x.len() != self.len_a {
            return Err(Error::AllocationError);
        }
        let witnessed = match cs.mode {
            Mode::Witnessed => true,
            Mode::StructureOnly => false,
        };
        // allocate the solution vector once
        let mut x_vars: Vec<Variable> = Vec::new();
        let mut j: usize = 0;
        while j < self.len_a
            invariant
                cs_wf(cs@),
                !cs@.finalized,
                cs@.mode == old(cs)@.mode,
                witnessed == (cs@.mode == Mode::Witnessed),
                self.x@.len() == self.len_a,
                self.len_a <= 1024,
                j <= self.len_a,
                cs@.num_public == 0,
                cs@.num_witness == j,
                cs@.constraints.len() == 0,
                witnessed ==> forall|k: int| 0 <= k < j ==> #[trigger] cs@.wits[k] == self.x@[k] as int,
                x_vars@.len() == j,
                forall|k: int|
                    0 <= k < j ==> #[trigger] x_vars@[k] == (crate::lc::Variable {
                        kind: crate::lc::VarKind::Witness,
                        index: k as usize,
                    }),
            decreases self.len_a - j,
        {
            let value = if witnessed {
                Some(fe_from_u64(self.x[j]))
            } else {
                None
            };
            let v = match cs.alloc_witness(value) {
                Ok(v) => v,
                Err(e) => {
                    proof {
                        assert(false);
                    }
                    return Err(e);
                },
            };
            x_vars.push(v);
            j += 1;
        }
        // one row at a time: allocate the row of A, the products, and
        // the matching entry of b, then enforce the sum
        let mut i: usize = 0;
        while i < self.len_b
            invariant
                cs_wf(cs@),
                !cs@.finalized,
                cs@.mode == old(cs)@.mode,
                witnessed == (cs@.mode == Mode::Witnessed),
                self.a@.len() == self.len_b,
                self.b@.len() == self.len_b,
                self.x@.len() == self.len_a,
                self.len_a <= 1024,
                self.len_b <= 1024,
                i <= self.len_b,
                forall|k: int| 0 <= k < i ==> (#[trigger] self.a@[k])@.len() == self.len_a,
                cs@.num_public == i * (self.len_a + 1),
                cs@.num_witness == self.len_a + i * self.len_a,
                cs@.constraints.len() == i * (self.len_a + 1),
                witnessed ==> forall|i2: int, j: int|
                    0 <= i2 < i && 0 <= j < self.len_a ==> cs@.pubs[i2 * (self.len_a + 1) + j]
                        == #[trigger] self.a@[i2]@[j] as int,
                witnessed ==> forall|i2: int|
                    0 <= i2 < i ==> cs@.pubs[i2 * (self.len_a + 1) + self.len_a]
                        == #[trigger] self.b@[i2] as int,
                witnessed ==> forall|k: int|
                    0 <= k < self.len_a ==> #[trigger] cs@.wits[k] == self.x@[k] as int,
                witnessed ==> forall|i2: int, j: int|
                    0 <= i2 < i && 0 <= j < self.len_a
                        ==> crate::system::constraint_satisfied(
                        #[trigger] cs@.constraints[i2 * (self.len_a + 1) + j],
                        cs@.pubs,
                        cs@.wits,
                    ),
                witnessed ==> forall|i2: int|
                    0 <= i2 < i ==> (crate::system::constraint_satisfied(
                        #[trigger] cs@.constraints[i2 * (self.len_a + 1) + self.len_a],
                        cs@.pubs,
                        cs@.wits,
                    ) <==> self.row_sum(i2, self.len_a as int) % crate::field::field_modulus()
                        == self.b@[i2] as int),
                x_vars@.len() == self.len_a,
                forall|k: int|
                    0 <= k < self.len_a ==> #[trigger] x_vars@[k] == (crate::lc::Variable {
                        kind: crate::lc::VarKind::Witness,
                        index: k as usize,
                    }),
            decreases self.len_b - i,
        {
            if self.a[i].len() != self.len_a {
                return Err(Error::AllocationError);
            }
            let mut sum_lc = LinearCombination::new();
            let mut j2: usize = 0;
            proof {
                vstd::arithmetic::power2::lemma_pow2_pos(128nat);
                assert(self.row_sum(i as int, 0) == 0);
                assert(i * (self.len_a + 1) + self.len_a + 1 <= (i + 1) * (self.len_a + 1))
                    by (nonlinear_arith);
                assert((i + 1) * (self.len_a + 1) <= 1050625int) by (nonlinear_arith)
                    requires
                        0 <= i < self.len_b,
                        self.len_b <= 1024,
                        self.len_a <= 1024,
                ;
                assert(self.len_a + i * self.len_a + self.len_a <= 1050625int)
                    by (nonlinear_arith)
                    requires
                        0 <= i < self.len_b,
                        self.len_b <= 1024,
                        self.len_a <= 1024,
                ;
            }
            while j2 < self.len_a
                invariant
                    cs_wf(cs@),
                    !cs@.finalized,
                    cs@.mode == old(cs)@.mode,
                    witnessed == (cs@.mode == Mode::Witnessed),
                    self.a@.len() == self.len_b,
                    self.a@[i as int]@.len() == self.len_a,
                    self.b@.len() == self.len_b,
                    self.x@.len() == self.len_a,
                    self.len_a <= 1024,
                    self.len_b <= 1024,
                    i < self.len_b,
                    j2 <= self.len_a,
                    cs@.num_public == i * (self.len_a + 1) + j2,
                    cs@.num_public <= 1050625,
                    cs@.num_witness == self.len_a + i * self.len_a + j2,
                    cs@.num_witness <= 1051649,
                    cs@.constraints.len() == i * (self.len_a + 1) + j2,
                    witnessed ==> forall|i2: int, j: int|
                        0 <= i2 < i && 0 <= j < self.len_a ==> cs@.pubs[i2 * (self.len_a + 1)
                            + j] == #[trigger] self.a@[i2]@[j] as int,
                    witnessed ==> forall|i2: int|
                        0 <= i2 < i ==> cs@.pubs[i2 * (self.len_a + 1) + self.len_a]
                            == #[trigger] self.b@[i2] as int,
                    witnessed ==> forall|j: int|
                        0 <= j < j2 ==> cs@.pubs[i * (self.len_a + 1) + j]
                            == #[trigger] self.a@[i as int]@[j] as int,
                    witnessed ==> forall|k: int|
                        0 <= k < self.len_a ==> #[trigger] cs@.wits[k] == self.x@[k] as int,
                    witnessed ==> forall|i2: int, j: int|
                        0 <= i2 < i && 0 <= j < self.len_a
                            ==> crate::system::constraint_satisfied(
                            #[trigger] cs@.constraints[i2 * (self.len_a + 1) + j],
                            cs@.pubs,
                            cs@.wits,
                        ),
                    witnessed ==> forall|i2: int|
                        0 <= i2 < i ==> (crate::system::constraint_satisfied(
                            #[trigger] cs@.constraints[i2 * (self.len_a + 1) + self.len_a],
                            cs@.pubs,
                            cs@.wits,
                        ) <==> self.row_sum(i2, self.len_a as int)
                            % crate::field::field_modulus() == self.b@[i2] as int),
                    witnessed ==> forall|j: int|
                        0 <= j < j2 ==> crate::system::constraint_satisfied(
                            #[trigger] cs@.constraints[i * (self.len_a + 1) + j],
                            cs@.pubs,
                            cs@.wits,
                        ),
                    witnessed ==> crate::lc::lc_int(sum_lc@, cs@.pubs, cs@.wits)
                        == self.row_sum(i as int, j2 as int),
                    witnessed ==> 0 <= self.row_sum(i as int, j2 as int) < (j2 as int + 1)
                        * (vstd::arithmetic::power2::pow2(128) as int),
                    x_vars@.len() == self.len_a,
                    forall|k: int|
                        0 <= k < self.len_a ==> #[trigger] x_vars@[k] == (crate::lc::Variable {
                            kind: crate::lc::VarKind::Witness,
                            index: k as usize,
                        }),
                    lc_wf(sum_lc@, cs@.num_public, cs@.num_witness),
                decreases self.len_a - j2,
            {
                proof {
                    assert(i * (self.len_a + 1) + j2 + 1 <= 1050625int) by (nonlinear_arith)
                        requires
                            0 <= i < self.len_b,
                            self.len_b <= 1024,
                            0 <= j2 < self.len_a,
                            self.len_a <= 1024,
                    ;
                    assert(self.len_a + i * self.len_a + j2 + 1 <= 1051649int)
                        by (nonlinear_arith)
                        requires
                            0 <= i < self.len_b,
                            self.len_b <= 1024,
                            0 <= j2 < self.len_a,
                            self.len_a <= 1024,
                    ;
                }
                let ghost pubs_j = cs@.pubs;
                let ghost wits_j = cs@.wits;
                let value = if witnessed {
                    Some(fe_from_u64(self.a[i][j2]))
                } else {
                    None
                };
                let a_var = match cs.alloc_public(value) {
                    Ok(v) => v,
                    Err(e) => {
                        proof {
                            assert(false);
                        }
                        return Err(e);
                    },
                };
                let ghost pubs_mid = cs@.pubs;
                let a_lc = LinearCombination::from_variable(a_var);
                let x_lc = LinearCombination::from_variable(x_vars[j2]);
                let t = match cs.multiply(&a_lc, &x_lc) {
                    Ok(t) => t,
                    Err(e) => {
                        proof {
                            assert(false);
                        }
                        return Err(e);
                    },
                };
                let ghost sum_old = sum_lc@;
                sum_lc = sum_lc.plus(&t);
                proof {
                    crate::gadgets::lemma_lc_wf_mono(
                        sum_lc@,
                        cs@.num_public,
                        cs@.num_witness,
                        cs@.num_public,
                        cs@.num_witness,
                    );
                    if witnessed {
                        assert(cs@.pubs[i * (self.len_a + 1) + j2]
                            == self.a@[i as int]@[j2 as int] as int);
                        assert forall|i2: int, j: int|
                            0 <= i2 < i && 0 <= j < self.len_a implies cs@.pubs[i2 * (self.len_a
                            + 1) + j] == self.a@[i2]@[j] as int by {
                            assert(i2 * (self.len_a + 1) + j < i * (self.len_a + 1))
                                by (nonlinear_arith)
                                requires
                                    0 <= i2 < i,
                                    0 <= j < self.len_a,
                            ;
                        }
                        assert forall|i2: int|
                            0 <= i2 < i implies cs@.pubs[i2 * (self.len_a + 1) + self.len_a]
                            == self.b@[i2] as int by {
                            assert(i2 * (self.len_a + 1) + self.len_a < i * (self.len_a + 1))
                                by (nonlinear_arith)
                                requires
                                    0 <= i2 < i,
                                    0 <= self.len_a,
                            ;
                        }
                        crate::field::lemma_field_modulus_bounds();
                        vstd::arithmetic::power2::lemma2_to64();
                        vstd::arithmetic::power2::lemma2_to64_rest();
                        vstd::arithmetic::power2::lemma_pow2_strictly_increases(64nat, 254nat);
                        vstd::arithmetic::power2::lemma_pow2_strictly_increases(128nat, 254nat);
                        vstd::arithmetic::power2::lemma_pow2_adds(64nat, 64nat);
                        let m = crate::field::field_modulus();
                        let aval = self.a@[i as int]@[j2 as int] as int;
                        let xval = self.x@[j2 as int] as int;
                        let p64 = vstd::arithmetic::power2::pow2(64) as int;
                        let p128 = vstd::arithmetic::power2::pow2(128) as int;
                        // the two factors of the new product carry the
                        // matrix entry and the solution entry
                        crate::lc::lemma_unit_singleton_value(a_lc@, a_var, pubs_mid, wits_j);
                        assert(pubs_mid[a_var.index as int] == aval);
                        assert(crate::lc::var_value(a_var, pubs_mid, wits_j) == aval);
                        crate::lc::lemma_unit_singleton_value(
                            x_lc@,
                            x_vars@[j2 as int],
                            pubs_mid,
                            wits_j,
                        );
                        assert(wits_j[x_vars@[j2 as int].index as int] == xval);
                        assert(crate::lc::var_value(x_vars@[j2 as int], pubs_mid, wits_j)
                            == xval);
                        vstd::arithmetic::div_mod::lemma_small_mod(aval as nat, m as nat);
                        vstd::arithmetic::div_mod::lemma_small_mod(xval as nat, m as nat);
                        assert(0 <= aval * xval && aval * xval < p128) by (nonlinear_arith)
                            requires
                                0 <= aval < p64,
                                0 <= xval < p64,
                                p128 == p64 * p64,
                        ;
                        vstd::arithmetic::div_mod::lemma_small_mod((aval * xval) as nat, m as nat);
                        // the fresh product witness
                        let tv = crate::lc::Variable {
                            kind: crate::lc::VarKind::Witness,
                            index: (cs@.num_witness - 1) as usize,
                        };
                        crate::lc::lemma_fresh_witness_value(t@, tv, cs@.pubs, cs@.wits);
                        assert(cs@.wits.last() == ((crate::lc::lc_int(a_lc@, pubs_mid, wits_j)
                            % m) * (crate::lc::lc_int(x_lc@, pubs_mid, wits_j) % m)) % m);
                        assert(cs@.wits.last() == (aval * xval) % m);
                        assert(cs@.wits.last() == aval * xval);
                        assert(crate::lc::lc_int(t@, cs@.pubs, cs@.wits) == aval * xval);
                        // the running sum extends by the product
                        assert(sum_lc@ =~= sum_old + t@);
                        crate::lc::lemma_lc_int_concat(sum_old, t@, cs@.pubs, cs@.wits);
                        crate::lc::lemma_lc_int_stable_both(
                            sum_old,
                            pubs_j,
                            cs@.pubs,
                            wits_j,
                            cs@.wits,
                        );
                        assert(self.row_sum(i as int, j2 + 1) == self.row_sum(i as int, j2 as int)
                            + aval * xval);
                        assert(crate::lc::lc_int(sum_lc@, cs@.pubs, cs@.wits) == self.row_sum(
                            i as int,
                            j2 + 1,
                        ));
                        assert(0 <= self.row_sum(i as int, j2 + 1) && self.row_sum(i as int, j2 + 1)
                            < (j2 as int + 2) * p128) by (nonlinear_arith)
                            requires
                                0 <= self.row_sum(i as int, j2 as int) < (j2 as int + 1) * p128,
                                0 <= aval * xval < p128,
                                self.row_sum(i as int, j2 + 1) == self.row_sum(
                                    i as int,
                                    j2 as int,
                                ) + aval * xval,
                        ;
                        // earlier recorded constraints keep holding
                        assert forall|i2: int, j: int|
                            0 <= i2 < i && 0 <= j < self.len_a
                                implies crate::system::constraint_satisfied(
                            #[trigger] cs@.constraints[i2 * (self.len_a + 1) + j],
                            cs@.pubs,
                            cs@.wits,
                        ) by {
                            assert(i2 * (self.len_a + 1) + j < i * (self.len_a + 1))
                                by (nonlinear_arith)
                                requires
                                    0 <= i2 < i,
                                    0 <= j < self.len_a,
                            ;
                            crate::system::lemma_constraint_satisfied_stable_both(
                                cs@.constraints[i2 * (self.len_a + 1) + j],
                                pubs_j,
                                cs@.pubs,
                                wits_j,
                                cs@.wits,
                            );
                        }
                        assert forall|i2: int|
                            0 <= i2 < i implies (crate::system::constraint_satisfied(
                            #[trigger] cs@.constraints[i2 * (self.len_a + 1) + self.len_a],
                            cs@.pubs,
                            cs@.wits,
                        ) <==> self.row_sum(i2, self.len_a as int) % m == self.b@[i2] as int) by {
                            assert(i2 * (self.len_a + 1) + self.len_a < i * (self.len_a + 1))
                                by (nonlinear_arith)
                                requires
                                    0 <= i2 < i,
                                    0 <= self.len_a,
                            ;
                            crate::system::lemma_constraint_satisfied_stable_both(
                                cs@.constraints[i2 * (self.len_a + 1) + self.len_a],
                                pubs_j,
                                cs@.pubs,
                                wits_j,
                                cs@.wits,
                            );
                        }
                        assert forall|j: int|
                            0 <= j < j2 implies crate::system::constraint_satisfied(
                            #[trigger] cs@.constraints[i * (self.len_a + 1) + j],
                            cs@.pubs,
                            cs@.wits,
                        ) by {
                            crate::system::lemma_constraint_satisfied_stable_both(
                                cs@.constraints[i * (self.len_a + 1) + j],
                                pubs_j,
                                cs@.pubs,
                                wits_j,
                                cs@.wits,
                            );
                        }
                    }
                }
                j2 += 1;
            }
            let ghost pubs_row = cs@.pubs;
            let ghost wits_row = cs@.wits;
            let value = if witnessed {
                Some(fe_from_u64(self.b[i]))
            } else {
                None
            };
            let b_var = match cs.alloc_public(value) {
                Ok(v) => v,
                Err(e) => {
                    proof {
                        assert(false);
                    }
                    return Err(e);
                },
            };
            let b_lc = LinearCombination::from_variable(b_var);
            cs.enforce_equal(&sum_lc, &b_lc);
            proof {
                assert(i * (self.len_a + 1) + self.len_a + 1 == (i + 1) * (self.len_a + 1))
                    by (nonlinear_arith);
                assert(self.len_a + i * self.len_a + self.len_a == self.len_a + (i + 1)
                    * self.len_a) by (nonlinear_arith);
                if witnessed {
                    assert(cs@.pubs[i * (self.len_a + 1) + self.len_a]
                        == self.b@[i as int] as int);
                    assert forall|i2: int, j: int|
                        0 <= i2 < i + 1 && 0 <= j < self.len_a implies cs@.pubs[i2 * (self.len_a
                        + 1) + j] == self.a@[i2]@[j] as int by {
                        assert(i2 * (self.len_a + 1) + j < i * (self.len_a + 1) + self.len_a)
                            by (nonlinear_arith)
                            requires
                                0 <= i2 <= i,
                                0 <= j < self.len_a,
                        ;
                    }
                    assert forall|i2: int|
                        0 <= i2 < i implies cs@.pubs[i2 * (self.len_a + 1) + self.len_a]
                        == self.b@[i2] as int by {
                        assert(i2 * (self.len_a + 1) + self.len_a < i * (self.len_a + 1))
                            by (nonlinear_arith)
                            requires
                                0 <= i2 < i,
                                0 <= self.len_a,
                        ;
                    }
                    crate::field::lemma_field_modulus_bounds();
                    vstd::arithmetic::power2::lemma2_to64();
                    vstd::arithmetic::power2::lemma2_to64_rest();
                    vstd::arithmetic::power2::lemma_pow2_strictly_increases(64nat, 254nat);
                    let m = crate::field::field_modulus();
                    let bval = self.b@[i as int] as int;
                    // the equality constraint for this row decides the row sum
                    let cv = cs@.constraints.last();
                    assert(b_lc@ =~= seq![(b_var, 1int)]);
                    crate::lc::lemma_unit_singleton_value(b_lc@, b_var, cs@.pubs, cs@.wits);
                    assert(cs@.pubs[b_var.index as int] == bval);
                    assert(crate::lc::var_value(b_var, cs@.pubs, cs@.wits) == bval);
                    assert(crate::lc::lc_int(b_lc@, cs@.pubs, cs@.wits) == bval);
                    vstd::arithmetic::div_mod::lemma_small_mod(bval as nat, m as nat);
                    crate::lc::lemma_lc_int_stable_both(
                        sum_lc@,
                        pubs_row,
                        cs@.pubs,
                        wits_row,
                        cs@.wits,
                    );
                    assert(crate::lc::lc_int(sum_lc@, cs@.pubs, cs@.wits) == self.row_sum(
                        i as int,
                        self.len_a as int,
                    ));
                    assert(crate::system::constraint_satisfied(cv, cs@.pubs, cs@.wits) == (
                    crate::lc::lc_int(sum_lc@, cs@.pubs, cs@.wits) % m == crate::lc::lc_int(
                        b_lc@,
                        cs@.pubs,
                        cs@.wits,
                    ) % m));
                    assert(crate::system::constraint_satisfied(cv, cs@.pubs, cs@.wits) <==> (
                    self.row_sum(i as int, self.len_a as int) % m == bval));
                    assert(cs@.constraints.len() - 1 == i * (self.len_a + 1) + self.len_a);
                    // earlier satisfied constraints carry over unchanged
                    assert forall|i2: int, j: int|
                        0 <= i2 < i + 1 && 0 <= j < self.len_a
                            implies crate::system::constraint_satisfied(
                        #[trigger] cs@.constraints[i2 * (self.len_a + 1) + j],
                        cs@.pubs,
                        cs@.wits,
                    ) by {
                        assert(i2 * (self.len_a + 1) + j < i * (self.len_a + 1) + self.len_a)
                            by (nonlinear_arith)
                            requires
                                0 <= i2 <= i,
                                0 <= j < self.len_a,
                        ;
                        crate::system::lemma_constraint_satisfied_stable_both(
                            cs@.constraints[i2 * (self.len_a + 1) + j],
                            pubs_row,
                            cs@.pubs,
                            wits_row,
                            cs@.wits,
                        );
                    }
                    assert forall|i2: int|
                        0 <= i2 < i implies (crate::system::constraint_satisfied(
                        #[trigger] cs@.constraints[i2 * (self.len_a + 1) + self.len_a],
                        cs@.pubs,
                        cs@.wits,
                    ) <==> self.row_sum(i2, self.len_a as int) % m == self.b@[i2] as int) by {
                        assert(i2 * (self.len_a + 1) + self.len_a < i * (self.len_a + 1))
                            by (nonlinear_arith)
                            requires
                                0 <= i2 < i,
                                0 <= self.len_a,
                        ;
                        crate::system::lemma_constraint_satisfied_stable_both(
                            cs@.constraints[i2 * (self.len_a + 1) + self.len_a],
                            pubs_row,
                            cs@.pubs,
                            wits_row,
                            cs@.wits,
                        );
                    }
                }
            }
            i += 1;
        }
        Ok(())
    }
}


impl CircuitDefinition for LinearEquationCircuit {
    fn synthesize(&self, cs: &mut ConstraintSystem) -> (r: Result<(), Error>) {
        self.build_constraints(cs)
    }
}

/// Bit `i` of a 64-bit exponent, as an integer.
pub open spec fn u64_bit(x: u64, i: int) -> int {
    if (x >> (i as u64)) & 1 == 1 {
        1int
    } else {
        0int
    }
}

/// The little-endian bit sequence of a 64-bit exponent.
pub open spec fn exponent_bits_of(x: u64) -> Seq<int> {
    Seq::new(EXPONENT_BITS as nat, |i: int| u64_bit(x, i))
}

/// Proves knowledge of an exponent `x` with `g^x = h` in the field,
/// over the fixed public bit width [`EXPONENT_BITS`]. The base `g` and
/// the result `h` are public inputs; the exponent bits are witnesses.
pub struct DiscreteLogCircuit {
    pub x: Option<u64>,
    pub g: u64,
    pub h: u64,
}

impl DiscreteLogCircuit {
    /// Builds the constraint system for `g^x = h`: the base and the
    /// result are the two public inputs, in that order; the exponent is
    /// decomposed into [`EXPONENT_BITS`] boolean-constrained witness
    /// bits, exponentiation by squaring carries `g^x`, and one equality
    /// constraint ties it to `h`.
    #[verifier::rlimit(100)]
    #[verifier::spinoff_prover]
    pub fn build_constraints(&self, cs: &mut ConstraintSystem) -> (r: Result<(), Error>)
        requires
            cs_wf(old(cs)@),
            !old(cs)@.finalized,
            old(cs)@.num_public == 0,
            old(cs)@.num_witness == 0,
            old(cs)@.constraints.len() == 0,
        ensures
            cs_wf(final(cs)@),
            final(cs)@.mode == old(cs)@.mode,
            !final(cs)@.finalized,
            r is Ok <==> !(old(cs)@.mode == Mode::Witnessed && self.x is None),
            r is Err ==> r == Err::<(), Error>(Error::MissingAssignment),
            r is Ok ==> {
                &&& final(cs)@.num_public == 2
                &&& final(cs)@.num_witness == 4 * EXPONENT_BITS
                &&& final(cs)@.constraints.len() == 4 * EXPONENT_BITS + 1
                &&& (old(cs)@.mode == Mode::Witnessed ==> final(cs)@.pubs =~= seq![
                    self.g as int,
                    self.h as int,
                ])
                &&& (old(cs)@.mode == Mode::Witnessed ==> (crate::system::cs_satisfied(
                    final(cs)@,
                ) <==> crate::gadgets::square_and_multiply(
                    self.g as int,
                    exponent_bits_of(self.x.unwrap()),
                    crate::field::field_modulus(),
                ) == self.h as int))
            },
    {
        let witnessed = match cs.mode {
            Mode::Witnessed => true,
            Mode::StructureOnly => false,
        };
        let xv: u64 = match self.x {
            Some(v) => v,
            None => {
                if witnessed {
                    return Err(Error::MissingAssignment);
                }
                0
            },
        };
        let g_var = match cs.alloc_public(
            if witnessed {
                Some(fe_from_u64(self.g))
            } else {
                None
            },
        ) {
            Ok(v) => v,
            Err(e) => {
                proof {
                    assert(false);
                }
                return Err(e);
            },
        };
        let h_var = match cs.alloc_public(
            if witnessed {
                Some(fe_from_u64(self.h))
            } else {
                None
            },
        ) {
            Ok(v) => v,
            Err(e) => {
                proof {
                    assert(false);
                }
                return Err(e);
            },
        };
        let mut bit_lcs: Vec<LinearCombination> = Vec::new();
        let mut i: usize = 0;
        while i < EXPONENT_BITS
            invariant
                cs_wf(cs@),
                !cs@.finalized,
                cs@.mode == old(cs)@.mode,
                witnessed == (cs@.mode == Mode::Witnessed),
                i <= EXPONENT_BITS,
                cs@.num_public == 2,
                cs@.num_witness == i,
                cs@.constraints.len() == i,
                witnessed ==> cs@.pubs =~= seq![self.g as int, self.h as int],
                witnessed ==> forall|k: int|
                    0 <= k < i ==> crate::system::constraint_satisfied(
                        #[trigger] cs@.constraints[k],
                        cs@.pubs,
                        cs@.wits,
                    ),
                bit_lcs@.len() == i,
                forall|k: int|
                    0 <= k < i ==> (#[trigger] bit_lcs@[k])@ =~= seq![
                        (
                            crate::lc::Variable {
                                kind: crate::lc::VarKind::Witness,
                                index: k as usize,
                            },
                            1int,
                        ),
                    ],
                witnessed ==> cs@.wits.len() == i,
                witnessed ==> (self.x is Some && xv == self.x.unwrap()),
                witnessed ==> forall|k: int| 0 <= k < i ==> #[trigger] cs@.wits[k] == u64_bit(xv, k),
                witnessed ==> forall|k: int| 0 <= k < i ==> 0 <= #[trigger] cs@.wits[k] <= 1,
            decreases EXPONENT_BITS - i,
        {
            let bit: u64 = (xv >> (i as u64)) & 1;
            proof {
                assert(bit == 0 || bit == 1) by (bit_vector)
                    requires
                        bit == (xv >> (i as u64)) & 1,
                ;
            }
            let ghost wits_i = cs@.wits;
            let v = match cs.alloc_witness(
                if witnessed {
                    Some(fe_from_u64(bit))
                } else {
                    None
                },
            ) {
                Ok(v) => v,
                Err(e) => {
                    proof {
                        assert(false);
                    }
                    return Err(e);
                },
            };
            let lc = LinearCombination::from_variable(v);
            cs.enforce_boolean(&lc);
            proof {
                if witnessed {
                    crate::field::lemma_field_modulus_bounds();
                    let m = crate::field::field_modulus();
                    assert forall|k: int|
                        0 <= k < cs@.constraints.len() - 1
                            implies crate::system::constraint_satisfied(
                        #[trigger] cs@.constraints[k],
                        cs@.pubs,
                        cs@.wits,
                    ) by {
                        assert(crate::system::constraint_wf(
                            cs@.constraints[k],
                            cs@.num_public,
                            wits_i.len() as int,
                        ));
                        crate::system::lemma_constraint_satisfied_stable(
                            cs@.constraints[k],
                            cs@.pubs,
                            wits_i,
                            cs@.wits,
                        );
                    }
                    crate::lc::lemma_fresh_witness_value(lc@, v, cs@.pubs, cs@.wits);
                    vstd::arithmetic::div_mod::lemma_small_mod(
                        cs@.wits.last() as nat,
                        m as nat,
                    );
                    assert(crate::lc::lc_int(lc@, cs@.pubs, cs@.wits) % m == 0
                        || crate::lc::lc_int(lc@, cs@.pubs, cs@.wits) % m == 1);
                    assert(crate::system::constraint_satisfied(
                        cs@.constraints.last(),
                        cs@.pubs,
                        cs@.wits,
                    ));
                }
            }
            bit_lcs.push(lc);
            i += 1;
        }
        let base_lc = LinearCombination::from_variable(g_var);
        let ghost pubs_e = cs@.pubs;
        let ghost wits_e = cs@.wits;
        proof {
            if witnessed {
                crate::field::lemma_field_modulus_bounds();
                assert forall|k: int|
                    0 <= k < bit_lcs@.len() implies (#[trigger] crate::gadgets::bit_values(
                    bit_lcs@,
                    cs@.pubs,
                    cs@.wits,
                )[k] == u64_bit(xv, k) && (crate::gadgets::bit_values(bit_lcs@, cs@.pubs, cs@.wits)[k] == 0
                    || crate::gadgets::bit_values(bit_lcs@, cs@.pubs, cs@.wits)[k]
                    == 1)) by {
                    crate::lc::lemma_fresh_witness_value(
                        bit_lcs@[k]@,
                        crate::lc::Variable {
                            kind: crate::lc::VarKind::Witness,
                            index: k as usize,
                        },
                        cs@.pubs,
                        cs@.wits.take(k + 1),
                    );
                    crate::lc::lemma_lc_int_stable(
                        bit_lcs@[k]@,
                        cs@.pubs,
                        cs@.wits.take(k + 1),
                        cs@.wits,
                    );
                    vstd::arithmetic::div_mod::lemma_small_mod(
                        cs@.wits[k] as nat,
                        crate::field::field_modulus() as nat,
                    );
                }
            }
            assert forall|k: int|
                0 <= k < bit_lcs@.len() implies lc_wf(
                (#[trigger] bit_lcs@[k])@,
                cs@.num_public,
                cs@.num_witness,
            ) by {
                assert(bit_lcs@[k]@[0].0.index < cs@.num_witness);
            }
        }
        proof {
            if witnessed {
                assert(crate::gadgets::bit_values(bit_lcs@, pubs_e, wits_e) =~= exponent_bits_of(
                    xv,
                ));
            }
        }
        let result = match cs.exponentiate(&base_lc, &bit_lcs) {
            Ok(t) => t,
            Err(e) => {
                proof {
                    assert(false);
                }
                return Err(e);
            },
        };
        let h_lc = LinearCombination::from_variable(h_var);
        cs.enforce_equal(&result, &h_lc);
        proof {
            if witnessed {
                crate::field::lemma_field_modulus_bounds();
                vstd::arithmetic::power2::lemma2_to64();
                vstd::arithmetic::power2::lemma2_to64_rest();
                vstd::arithmetic::power2::lemma_pow2_strictly_increases(64nat, 254nat);
                let m = crate::field::field_modulus();
                let pubs = final(cs)@.pubs;
                let wits = final(cs)@.wits;
                let cv = final(cs)@.constraints.last();
                // the base carries `g` and the result column carries the
                // square-and-multiply value
                crate::lc::lemma_lc_int_singleton(
                    (Variable { kind: crate::lc::VarKind::PublicInput, index: 0 }, 1int),
                    pubs_e,
                    wits_e,
                );
                assert(base_lc@ =~= seq![
                    (Variable { kind: crate::lc::VarKind::PublicInput, index: 0 }, 1int),
                ]);
                assert(pubs_e =~= seq![self.g as int, self.h as int]);
                assert(lc_int(base_lc@, pubs_e, wits_e) == 1 * crate::lc::var_value(
                    Variable { kind: crate::lc::VarKind::PublicInput, index: 0 },
                    pubs_e,
                    wits_e,
                ));
                assert(crate::lc::var_value(
                    Variable { kind: crate::lc::VarKind::PublicInput, index: 0 },
                    pubs_e,
                    wits_e,
                ) == pubs_e[0]);
                assert(lc_int(base_lc@, pubs_e, wits_e) == self.g as int);
                assert((self.g as int) % m == self.g as int) by {
                    vstd::arithmetic::div_mod::lemma_small_mod(self.g as nat, m as nat);
                }
                assert(lc_int(result@, pubs, wits) % m == crate::gadgets::square_and_multiply(
                    self.g as int,
                    exponent_bits_of(self.x.unwrap()),
                    m,
                ));
                // the other side of the equality carries `h`
                crate::lc::lemma_lc_int_singleton(
                    (Variable { kind: crate::lc::VarKind::PublicInput, index: 1 }, 1int),
                    pubs,
                    wits,
                );
                assert(h_lc@ =~= seq![
                    (Variable { kind: crate::lc::VarKind::PublicInput, index: 1 }, 1int),
                ]);
                assert(pubs =~= seq![self.g as int, self.h as int]);
                assert(lc_int(h_lc@, pubs, wits) == 1 * crate::lc::var_value(
                    Variable { kind: crate::lc::VarKind::PublicInput, index: 1 },
                    pubs,
                    wits,
                ));
                assert(crate::lc::var_value(
                    Variable { kind: crate::lc::VarKind::PublicInput, index: 1 },
                    pubs,
                    wits,
                ) == pubs[1]);
                assert(lc_int(h_lc@, pubs, wits) == self.h as int);
                assert((self.h as int) % m == self.h as int) by {
                    vstd::arithmetic::div_mod::lemma_small_mod(self.h as nat, m as nat);
                }
                assert(crate::system::constraint_satisfied(cv, pubs, wits) == (lc_int(
                    result@,
                    pubs,
                    wits,
                ) % m == lc_int(h_lc@, pubs, wits) % m));
                // the booleanity and exponentiation constraints hold under
                // the final assignment, so satisfiability of the whole
                // system comes down to the last constraint
                assert forall|k: int|
                    0 <= k < EXPONENT_BITS implies crate::system::constraint_satisfied(
                    #[trigger] final(cs)@.constraints[k],
                    pubs,
                    wits,
                ) by {
                    assert(crate::system::constraint_wf(
                        final(cs)@.constraints[k],
                        2,
                        wits_e.len() as int,
                    ));
                    crate::system::lemma_constraint_satisfied_stable(
                        final(cs)@.constraints[k],
                        pubs,
                        wits_e,
                        wits,
                    );
                }
                if crate::system::cs_satisfied(final(cs)@) {
                    assert(crate::system::constraint_satisfied(cv, pubs, wits));
                }
                if crate::gadgets::square_and_multiply(
                    self.g as int,
                    exponent_bits_of(self.x.unwrap()),
                    m,
                ) == self.h as int {
                    assert forall|k: int|
                        0 <= k < final(cs)@.constraints.len()
                            implies crate::system::constraint_satisfied(
                        #[trigger] final(cs)@.constraints[k],
                        pubs,
                        wits,
                    ) by {
                        if k < EXPONENT_BITS {
                        } else if k < 4 * EXPONENT_BITS {
                        } else {
                            assert(final(cs)@.constraints[k] == cv);
                        }
                    }
                    assert(crate::system::cs_satisfied(final(cs)@));
                }
            }
        }
        Ok(())
    }
}

impl CircuitDefinition for DiscreteLogCircuit {
    fn synthesize(&self, cs: &mut ConstraintSystem) -> (r: Result<(), Error>) {
        self.build_constraints(cs)
    }
}

/// The number of primes in `[2, bound)`: the trial divisors the
/// semiprime filter enforces.
pub open spec fn trial_prime_count(bound: int) -> int
    decreases bound,
{
    if bound <= 2 {
        0
    } else {
        trial_prime_count(bound - 1) + if is_prime_spec((bound - 1) as nat) {
            1int
        } else {
            0int
        }
    }
}

/// The product constraint over the first two witnesses and the first
/// public input holds exactly when the factors multiply to the product
/// in the field.
proof fn lemma_product_constraint_characterization(
    c0: crate::system::ConstraintView,
    pv: u64,
    qv: u64,
    nv: u64,
    pubs: Seq<int>,
    wits: Seq<int>,
)
    requires
        c0.a =~= seq![(Variable { kind: crate::lc::VarKind::Witness, index: 0 }, 1int)],
        c0.b =~= seq![(Variable { kind: crate::lc::VarKind::Witness, index: 1 }, 1int)],
        c0.c =~= seq![(Variable { kind: crate::lc::VarKind::PublicInput, index: 0 }, 1int)],
        wits.len() >= 2,
        wits[0] == pv as int,
        wits[1] == qv as int,
        pubs.len() >= 1,
        pubs[0] == nv as int,
    ensures
        crate::system::constraint_satisfied(c0, pubs, wits) == ((pv as int) * (qv as int)
            % crate::field::field_modulus() == nv as int),
{
    crate::field::lemma_field_modulus_bounds();
    vstd::arithmetic::power2::lemma2_to64();
    vstd::arithmetic::power2::lemma2_to64_rest();
    vstd::arithmetic::power2::lemma_pow2_strictly_increases(64nat, 254nat);
    let m = crate::field::field_modulus();
    crate::lc::lemma_lc_int_singleton(
        (Variable { kind: crate::lc::VarKind::Witness, index: 0 }, 1int),
        pubs,
        wits,
    );
    crate::lc::lemma_lc_int_singleton(
        (Variable { kind: crate::lc::VarKind::Witness, index: 1 }, 1int),
        pubs,
        wits,
    );
    crate::lc::lemma_lc_int_singleton(
        (Variable { kind: crate::lc::VarKind::PublicInput, index: 0 }, 1int),
        pubs,
        wits,
    );
    assert(lc_int(c0.a, pubs, wits) == pv as int);
    assert(lc_int(c0.b, pubs, wits) == qv as int);
    assert(lc_int(c0.c, pubs, wits) == nv as int);
    vstd::arithmetic::div_mod::lemma_small_mod(pv as nat, m as nat);
    vstd::arithmetic::div_mod::lemma_small_mod(qv as nat, m as nat);
    vstd::arithmetic::div_mod::lemma_small_mod(nv as nat, m as nat);
}

/// Proves knowledge of two factors with `p · q = n` for the public
/// product `n`, together with a bounded trial-division filter over the
/// primes below `trial_bound`. The filter is a cheap heuristic with a
/// fixed, explicit bound and deterministic termination; it does not
/// establish primality. As a recorded constraint shape it is satisfiable
/// for any factor, because the quotient witness is not tied to integer
/// division; its force is that an honest prover's synthesis aborts with
/// `DivisionByZero` when a trial prime divides a factor.
pub struct SemiPrimeCircuit {
    pub p: Option<u64>,
    pub q: Option<u64>,
    pub n: Option<u64>,
    pub trial_bound: u32,
}

impl SemiPrimeCircuit {
    /// Records the non-divisibility filter for one factor and one trial
    /// prime `r`: witnesses `k` and `m` with `k·r + m = factor`, `m`
    /// nonzero and range-checked to [`REMAINDER_BITS`] bits. In
    /// `Witnessed` mode, `m` is the actual remainder, so the call fails
    /// with `DivisionByZero` exactly when `r` divides the factor; the
    /// recorded shape alone does not force `m` below `r`.
    fn enforce_non_divisibility(
        &self,
        cs: &mut ConstraintSystem,
        factor_var: Variable,
        factor_value: u64,
        r: u32,
        witnessed: bool,
    ) -> (res: Result<(), Error>)
        requires
            cs_wf(old(cs)@),
            !old(cs)@.finalized,
            witnessed == (old(cs)@.mode == Mode::Witnessed),
            crate::lc::var_wf(factor_var, old(cs)@.num_public, old(cs)@.num_witness),
            factor_var.kind == crate::lc::VarKind::Witness,
            witnessed ==> old(cs)@.wits[factor_var.index as int] == factor_value as int,
            2 <= r < 65536,
            old(cs)@.num_public + old(cs)@.num_witness + 100 <= usize::MAX - 100,
        ensures
            cs_wf(final(cs)@),
            final(cs)@.mode == old(cs)@.mode,
            final(cs)@.finalized == old(cs)@.finalized,
            final(cs)@.num_public == old(cs)@.num_public,
            final(cs)@.pubs == old(cs)@.pubs,
            old(cs)@.num_witness <= final(cs)@.num_witness,
            final(cs)@.num_witness <= old(cs)@.num_witness + 100,
            res is Ok ==> final(cs)@.num_witness == old(cs)@.num_witness + 3 + REMAINDER_BITS,
            res is Ok ==> final(cs)@.constraints.len() == old(cs)@.constraints.len() + 3
                + REMAINDER_BITS,
            old(cs)@.wits.len() <= final(cs)@.wits.len(),
            forall|k: int| 0 <= k < old(cs)@.wits.len() ==> old(cs)@.wits[k] == final(cs)@.wits[k],
            old(cs)@.constraints.len() <= final(cs)@.constraints.len(),
            forall|k: int|
                0 <= k < old(cs)@.constraints.len() ==> final(cs)@.constraints[k] == old(
                    cs,
                )@.constraints[k],
            res is Ok <==> !(witnessed && factor_value % (r as u64) == 0),
            res is Err ==> res == Err::<(), Error>(Error::DivisionByZero),
            res is Ok && witnessed ==> forall|k: int|
                old(cs)@.constraints.len() <= k < final(cs)@.constraints.len()
                    ==> crate::system::constraint_satisfied(
                    #[trigger] final(cs)@.constraints[k],
                    final(cs)@.pubs,
                    final(cs)@.wits,
                ),
    {
        let k: u64 = if witnessed {
            factor_value / (r as u64)
        } else {
            0
        };
        let m: u64 = if witnessed {
            factor_value % (r as u64)
        } else {
            0
        };
        let k_var = match cs.alloc_witness(
            if witnessed {
                Some(fe_from_u64(k))
            } else {
                None
            },
        ) {
            Ok(v) => v,
            Err(e) => {
                proof {
                    assert(false);
                }
                return Err(e);
            },
        };
        let m_var = match cs.alloc_witness(
            if witnessed {
                Some(fe_from_u64(m))
            } else {
                None
            },
        ) {
            Ok(v) => v,
            Err(e) => {
                proof {
                    assert(false);
                }
                return Err(e);
            },
        };
        let mut div_lc = LinearCombination::new();
        div_lc.push_term(k_var, fe_from_u64(r as u64));
        div_lc.push_term(m_var, FieldElement::from_u64(1));
        let factor_lc = LinearCombination::from_variable(factor_var);
        cs.enforce_equal(&div_lc, &factor_lc);
        let ghost c_eq_view = cs@.constraints.last();
        let m_lc = LinearCombination::from_variable(m_var);
        let zero_lc = LinearCombination::new();
        proof {
            crate::field::lemma_field_modulus_bounds();
            vstd::arithmetic::power2::lemma2_to64();
            vstd::arithmetic::power2::lemma_pow2_strictly_increases(17nat, 254nat);
            let pm = crate::field::field_modulus();
            if witnessed {
                // the remainder witness carries exactly `factor mod r`,
                // which is below the field modulus
                assert(m_var.index as int == cs@.wits.len() - 1);
                crate::lc::lemma_fresh_witness_value(m_lc@, m_var, cs@.pubs, cs@.wits);
                assert(crate::lc::lc_int(m_lc@, cs@.pubs, cs@.wits) == m as int);
                assert(m < r);
                assert((m as int) % pm == m as int) by {
                    vstd::arithmetic::div_mod::lemma_small_mod(m as nat, pm as nat);
                }
                vstd::arithmetic::div_mod::lemma_small_mod(0nat, pm as nat);
            }
        }
        match cs.enforce_not_equal(&m_lc, &zero_lc) {
            Ok(()) => {},
            Err(e) => {
                return Err(e);
            },
        }
        let ghost wits2 = cs@.wits;
        let ghost len2 = cs@.constraints.len();
        match cs.range_check(&m_lc, REMAINDER_BITS) {
            Ok(()) => {},
            Err(e) => {
                proof {
                    assert(false);
                }
                return Err(e);
            },
        }
        proof {
            if witnessed {
                crate::field::lemma_field_modulus_bounds();
                vstd::arithmetic::power2::lemma2_to64();
                vstd::arithmetic::power2::lemma2_to64_rest();
                vstd::arithmetic::power2::lemma_pow2_strictly_increases(17nat, 254nat);
                vstd::arithmetic::power2::lemma_pow2_strictly_increases(64nat, 254nat);
                let pm = crate::field::field_modulus();
                let pubs = final(cs)@.pubs;
                let wits = final(cs)@.wits;
                let len0: int = old(cs)@.constraints.len() as int;
                // the division identity holds exactly, so the linear
                // constraint is satisfied under any later extension
                vstd::arithmetic::div_mod::lemma_fundamental_div_mod(
                    factor_value as int,
                    r as int,
                );
                vstd::arithmetic::div_mod::lemma_mod_division_less_than_divisor(
                    factor_value as int,
                    r as int,
                );
                assert((r as int) * (k as int) + (m as int) == factor_value as int)
                    by (nonlinear_arith)
                    requires
                        k as int == (factor_value as int) / (r as int),
                        m as int == (factor_value as int) % (r as int),
                        factor_value as int == (r as int) * ((factor_value as int) / (
                        r as int)) + (factor_value as int) % (r as int),
                ;
                assert(div_lc@ =~= seq![(k_var, r as int), (m_var, 1int)]);
                assert(div_lc@.drop_last() =~= seq![(k_var, r as int)]);
                crate::lc::lemma_lc_int_singleton((k_var, r as int), pubs, wits);
                assert(wits[k_var.index as int] == k as int);
                assert(wits[m_var.index as int] == m as int);
                assert(crate::lc::lc_int(div_lc@, pubs, wits) == (r as int) * (k as int) + 1 * (
                m as int));
                crate::lc::lemma_unit_singleton_value(factor_lc@, factor_var, pubs, wits);
                assert(wits[factor_var.index as int] == factor_value as int);
                assert(crate::lc::lc_int(factor_lc@, pubs, wits) == factor_value as int);
                assert(final(cs)@.constraints[len0] == c_eq_view);
                vstd::arithmetic::div_mod::lemma_small_mod(
                    factor_value as nat,
                    pm as nat,
                );
                assert(crate::lc::lc_int(div_lc@, pubs, wits) == factor_value as int);
                assert(crate::system::constraint_satisfied(c_eq_view, pubs, wits) == (
                crate::lc::lc_int(div_lc@, pubs, wits) % pm == crate::lc::lc_int(
                    factor_lc@,
                    pubs,
                    wits,
                ) % pm));
                assert(crate::system::constraint_satisfied(final(cs)@.constraints[len0], pubs, wits));
                // the inequality constraint carries over from its creation
                assert(crate::system::constraint_wf(
                    final(cs)@.constraints[len0 + 1],
                    final(cs)@.num_public,
                    wits2.len() as int,
                ));
                crate::system::lemma_constraint_satisfied_stable(
                    final(cs)@.constraints[len0 + 1],
                    pubs,
                    wits2,
                    wits,
                );
                // the range decomposition fits: the remainder is below the
                // trial prime, far inside the checked width
                vstd::arithmetic::power2::lemma_pow2_strictly_increases(17nat, 32nat);
                crate::gadgets::lemma_low_bits_sum_is_mod(m as int, REMAINDER_BITS as nat);
                crate::lc::lemma_unit_singleton_value(m_lc@, m_var, pubs, wits2);
                assert(wits2[m_var.index as int] == m as int);
                assert(crate::lc::lc_int(m_lc@, pubs, wits2) == m as int);
                vstd::arithmetic::div_mod::lemma_small_mod(m as nat, pm as nat);
                assert(crate::lc::lc_int(m_lc@, pubs, wits2) % pm == m as int);
                assert(m < 65536 && 65536 < vstd::arithmetic::power2::pow2(32));
                assert(crate::gadgets::low_bits_sum(m as int, REMAINDER_BITS as nat) == m as int);
                assert(crate::system::constraint_satisfied(
                    final(cs)@.constraints.last(),
                    pubs,
                    wits,
                ));
                assert forall|kk: int|
                    len0 <= kk < final(cs)@.constraints.len()
                        implies crate::system::constraint_satisfied(
                    #[trigger] final(cs)@.constraints[kk],
                    pubs,
                    wits,
                ) by {
                    if kk == len0 {
                    } else if kk == len0 + 1 {
                    } else if kk < final(cs)@.constraints.len() - 1 {
                        // a booleanity constraint of the range check
                    } else {
                    }
                }
            }
        }
        Ok(())
    }
}

impl SemiPrimeCircuit {
    /// Builds the semiprime constraint system: the product `n` is the
    /// one public input, the factors are witnesses tied to it by the
    /// constraint `p · q = n`, and the trial-division filter is applied
    /// to both factors for every prime below the bound. In `Witnessed`
    /// mode the filter aborts with `DivisionByZero` exactly when some
    /// trial prime divides a factor.
    #[verifier::rlimit(100)]
    #[verifier::spinoff_prover]
    pub fn build_constraints(&self, cs: &mut ConstraintSystem) -> (r: Result<(), Error>)
        requires
            cs_wf(old(cs)@),
            !old(cs)@.finalized,
            old(cs)@.num_public == 0,
            old(cs)@.num_witness == 0,
            old(cs)@.constraints.len() == 0,
        ensures
            cs_wf(final(cs)@),
            final(cs)@.mode == old(cs)@.mode,
            !final(cs)@.finalized,
            (r == Err::<(), Error>(Error::BackendError)) <==> self.trial_bound > MAX_TRIAL_BOUND,
            self.trial_bound <= MAX_TRIAL_BOUND ==> ((r == Err::<(), Error>(
                Error::MissingAssignment,
            )) <==> (old(cs)@.mode == Mode::Witnessed && (self.p is None || self.q is None
                || self.n is None))),
            r is Err ==> (r == Err::<(), Error>(Error::BackendError) || r == Err::<(), Error>(
                Error::MissingAssignment,
            ) || r == Err::<(), Error>(Error::DivisionByZero)),
            r is Ok <==> (self.trial_bound <= MAX_TRIAL_BOUND && !(old(cs)@.mode
                == Mode::Witnessed && (self.p is None || self.q is None || self.n is None)) && (
            old(cs)@.mode == Mode::Witnessed ==> forall|rr: int|
                2 <= rr < self.trial_bound && #[trigger] is_prime_spec(rr as nat) ==> (
                self.p.unwrap() as int) % rr != 0 && (self.q.unwrap() as int) % rr != 0)),
            r is Ok ==> {
                &&& final(cs)@.num_public == 1
                &&& final(cs)@.num_witness == 2 + (6 + 2 * REMAINDER_BITS) * trial_prime_count(
                    self.trial_bound as int,
                )
                &&& final(cs)@.constraints.len() == 1 + (6 + 2 * REMAINDER_BITS)
                    * trial_prime_count(self.trial_bound as int)
                &&& (old(cs)@.mode == Mode::Witnessed ==> final(cs)@.pubs =~= seq![
                    self.n.unwrap() as int,
                ])
                &&& (old(cs)@.mode == Mode::Witnessed ==> (crate::system::cs_satisfied(
                    final(cs)@,
                ) <==> ((self.p.unwrap() as int) * (self.q.unwrap() as int)
                    % crate::field::field_modulus() == self.n.unwrap() as int)))
            },
    {
        if self.trial_bound > MAX_TRIAL_BOUND {
            return Err(Error::BackendError);
        }
        let witnessed = match cs.mode {
            Mode::Witnessed => true,
            Mode::StructureOnly => false,
        };
        let pv: u64 = match self.p {
            Some(v) => v,
            None => {
                if witnessed {
                    return Err(Error::MissingAssignment);
                }
                0
            },
        };
        let qv: u64 = match self.q {
            Some(v) => v,
            None => {
                if witnessed {
                    return Err(Error::MissingAssignment);
                }
                0
            },
        };
        let n_var = match cs.alloc_public(
            match self.n {
                Some(v) => if witnessed {
                    Some(fe_from_u64(v))
                } else {
                    None
                },
                None => None,
            },
        ) {
            Ok(v) => v,
            Err(e) => {
                return Err(e);
            },
        };
        let p_var = match cs.alloc_witness(
            if witnessed {
                Some(fe_from_u64(pv))
            } else {
                None
            },
        ) {
            Ok(v) => v,
            Err(e) => {
                proof {
                    assert(false);
                }
                return Err(e);
            },
        };
        let q_var = match cs.alloc_witness(
            if witnessed {
                Some(fe_from_u64(qv))
            } else {
                None
            },
        ) {
            Ok(v) => v,
            Err(e) => {
                proof {
                    assert(false);
                }
                return Err(e);
            },
        };
        let p_lc = LinearCombination::from_variable(p_var);
        let q_lc = LinearCombination::from_variable(q_var);
        let n_lc = LinearCombination::from_variable(n_var);
        cs.enforce(&p_lc, &q_lc, &n_lc);
        proof {
            if witnessed {
                let c0 = cs@.constraints[0];
                assert(c0.a =~= seq![(p_var, 1int)]);
                assert(c0.b =~= seq![(q_var, 1int)]);
                assert(c0.c =~= seq![(n_var, 1int)]);
                assert(cs@.wits.len() == 2);
                assert(cs@.wits[0] == pv as int && cs@.wits[1] == qv as int);
                lemma_product_constraint_characterization(
                    c0,
                    pv,
                    qv,
                    self.n.unwrap(),
                    cs@.pubs,
                    cs@.wits,
                );
            }
        }
        let mut r: u32 = 2;
        while r < self.trial_bound
            invariant
                self.trial_bound <= 65536,
                cs_wf(cs@),
                !cs@.finalized,
                cs@.mode == old(cs)@.mode,
                witnessed == (cs@.mode == Mode::Witnessed),
                2 <= r,
                r <= self.trial_bound || r == 2,
                cs@.num_public == 1,
                p_var == (crate::lc::Variable { kind: crate::lc::VarKind::Witness, index: 0 }),
                q_var == (crate::lc::Variable { kind: crate::lc::VarKind::Witness, index: 1 }),
                2 <= cs@.wits.len() || !witnessed,
                witnessed ==> (cs@.wits[0] == pv as int && cs@.wits[1] == qv as int),
                cs@.num_witness == 2 + (6 + 2 * REMAINDER_BITS) * trial_prime_count(r as int),
                cs@.constraints.len() == 1 + (6 + 2 * REMAINDER_BITS) * trial_prime_count(
                    r as int,
                ),
                cs@.num_witness <= 2 + 200 * (r as int),
                witnessed ==> (self.p is Some && self.q is Some && self.n is Some && pv
                    == self.p.unwrap() && qv == self.q.unwrap()),
                witnessed ==> cs@.pubs =~= seq![self.n.unwrap() as int],
                cs@.constraints.len() >= 1,
                witnessed ==> (crate::system::constraint_satisfied(
                    cs@.constraints[0],
                    cs@.pubs,
                    cs@.wits,
                ) <==> ((pv as int) * (qv as int) % crate::field::field_modulus()
                    == self.n.unwrap() as int)),
                witnessed ==> forall|k: int|
                    1 <= k < cs@.constraints.len() ==> crate::system::constraint_satisfied(
                        #[trigger] cs@.constraints[k],
                        cs@.pubs,
                        cs@.wits,
                    ),
                constraint_wf(cs@.constraints[0], cs@.num_public, cs@.num_witness),
                witnessed ==> forall|rr: int|
                    2 <= rr < r && #[trigger] is_prime_spec(rr as nat) ==> (pv as int) % rr != 0
                        && (qv as int) % rr != 0,
            decreases self.trial_bound - r,
        {
            let ghost wits_r = cs@.wits;
            let ghost c0r = cs@.constraints[0];
            let ghost c0s_len: int = cs@.constraints.len() as int;
            let ghost mut wits_mid = cs@.wits;
            let ghost mut len_mid: int = cs@.constraints.len() as int;
            if is_prime(r) {
                proof {
                    assert(cs@.num_public + cs@.num_witness + 100 <= usize::MAX - 100)
                        by (nonlinear_arith)
                        requires
                            cs@.num_public == 1,
                            cs@.num_witness <= 2 + 200 * (r as int),
                            0 <= r < 65536,
                    ;
                }
                match self.enforce_non_divisibility(cs, p_var, pv, r, witnessed) {
                    Ok(()) => {},
                    Err(e) => {
                        proof {
                            if witnessed {
                                assert(is_prime_spec(r as nat));
                                assert((pv as int) % (r as int) == 0);
                                if (forall|rr: int|
                                    2 <= rr < self.trial_bound && #[trigger] is_prime_spec(
                                        rr as nat,
                                    ) ==> (pv as int) % rr != 0 && (qv as int) % rr != 0) {
                                    let rr0: int = r as int;
                                    assert(is_prime_spec(rr0 as nat));
                                    assert(2 <= rr0 && rr0 < self.trial_bound);
                                    assert((pv as int) % rr0 != 0);
                                    assert(false);
                                }
                            }
                        }
                        return Err(e);
                    },
                }
                proof {
                    wits_mid = cs@.wits;
                    len_mid = cs@.constraints.len() as int;
                    assert(cs@.num_public + cs@.num_witness + 100 <= usize::MAX - 100)
                        by (nonlinear_arith)
                        requires
                            cs@.num_public == 1,
                            cs@.num_witness <= 102 + 200 * (r as int),
                            0 <= r < 65536,
                    ;
                }
                match self.enforce_non_divisibility(cs, q_var, qv, r, witnessed) {
                    Ok(()) => {},
                    Err(e) => {
                        proof {
                            if witnessed {
                                assert(is_prime_spec(r as nat));
                                assert((qv as int) % (r as int) == 0);
                                if (forall|rr: int|
                                    2 <= rr < self.trial_bound && #[trigger] is_prime_spec(
                                        rr as nat,
                                    ) ==> (pv as int) % rr != 0 && (qv as int) % rr != 0) {
                                    let rr0: int = r as int;
                                    assert(is_prime_spec(rr0 as nat));
                                    assert(2 <= rr0 && rr0 < self.trial_bound);
                                    assert((qv as int) % rr0 != 0);
                                    assert(false);
                                }
                            }
                        }
                        return Err(e);
                    },
                }
            }
            proof {
                assert(trial_prime_count(r as int + 1) == trial_prime_count(r as int) + (
                if is_prime_spec(r as nat) {
                    1int
                } else {
                    0int
                }));
                assert((6 + 2 * REMAINDER_BITS) * (trial_prime_count(r as int) + 1) == (6 + 2
                    * REMAINDER_BITS) * trial_prime_count(r as int) + (6 + 2 * REMAINDER_BITS))
                    by (nonlinear_arith);
                if witnessed {
                    assert forall|k: int|
                        1 <= k < cs@.constraints.len()
                            implies crate::system::constraint_satisfied(
                        #[trigger] cs@.constraints[k],
                        cs@.pubs,
                        cs@.wits,
                    ) by {
                        if k < c0s_len {
                            assert(crate::system::constraint_wf(
                                cs@.constraints[k],
                                cs@.num_public,
                                wits_r.len() as int,
                            ));
                            crate::system::lemma_constraint_satisfied_stable(
                                cs@.constraints[k],
                                cs@.pubs,
                                wits_r,
                                cs@.wits,
                            );
                        } else if k < len_mid {
                            assert(crate::system::constraint_wf(
                                cs@.constraints[k],
                                cs@.num_public,
                                wits_mid.len() as int,
                            ));
                            crate::system::lemma_constraint_satisfied_stable(
                                cs@.constraints[k],
                                cs@.pubs,
                                wits_mid,
                                cs@.wits,
                            );
                        }
                    }
                    assert(cs@.constraints[0] == c0r);
                    assert(wits_r.len() <= cs@.wits.len());
                    assert(forall|k: int|
                        0 <= k < wits_r.len() ==> wits_r[k] == #[trigger] cs@.wits[k]);
                    crate::system::lemma_constraint_satisfied_stable(
                        c0r,
                        cs@.pubs,
                        wits_r,
                        cs@.wits,
                    );
                }
            }
            r = r + 1;
        }
        proof {
            if witnessed {
                let pm = crate::field::field_modulus();
                let prod_ok = (pv as int) * (qv as int) % pm == self.n.unwrap() as int;
                if prod_ok {
                    assert forall|k: int|
                        0 <= k < cs@.constraints.len()
                            implies crate::system::constraint_satisfied(
                        #[trigger] cs@.constraints[k],
                        cs@.pubs,
                        cs@.wits,
                    ) by {
                        if k == 0 {
                        }
                    }
                    assert(crate::system::cs_satisfied(cs@));
                }
                if crate::system::cs_satisfied(cs@) {
                    assert(crate::system::constraint_satisfied(
                        cs@.constraints[0],
                        cs@.pubs,
                        cs@.wits,
                    ));
                }
            }
        }
        Ok(())
    }
}

impl CircuitDefinition for SemiPrimeCircuit {
    fn synthesize(&self, cs: &mut ConstraintSystem) -> (r: Result<(), Error>) {
        self.build_constraints(cs)
    }
}

/// Proves knowledge of a completed Sudoku grid: eighty-one witness
/// cells, each range-checked, with the cells of every row, column and
/// three-by-three box pairwise distinct. There are no public inputs.
pub struct SudokuCircuit {
    pub solution: Option<[[u8; 9]; 9]>,
}

/// The value of grid cell `k` (row-major) as an integer.
pub open spec fn cell_value(grid: [[u8; 9]; 9], k: int) -> int {
    grid@[k / 9]@[k % 9] as int
}

/// The row-major cell index of member `e` of constraint group `g`:
/// groups 0..9 are the rows, 9..18 the columns, 18..27 the boxes.
pub open spec fn group_cell(g: int, e: int) -> int {
    if g < 9 {
        g * 9 + e
    } else if g < 18 {
        e * 9 + (g - 9)
    } else {
        ((g - 18) / 3 * 3 + e / 3) * 9 + (g - 18) % 3 * 3 + e % 3
    }
}

/// Every group member indexes a cell of the grid.
pub proof fn lemma_group_cell_bounds(g: int, e: int)
    requires
        0 <= g < 27,
        0 <= e < 9,
    ensures
        0 <= group_cell(g, e) < 81,
{
    if g >= 18 {
        let b = g - 18;
        vstd::arithmetic::div_mod::lemma_div_is_ordered(b, 8, 3);
        vstd::arithmetic::div_mod::lemma_div_is_ordered(e, 8, 3);
        vstd::arithmetic::div_mod::lemma_div_pos_is_pos(b, 3);
        vstd::arithmetic::div_mod::lemma_div_pos_is_pos(e, 3);
        vstd::arithmetic::div_mod::lemma_mod_division_less_than_divisor(b, 3);
        vstd::arithmetic::div_mod::lemma_mod_division_less_than_divisor(e, 3);
    }
}

/// The reduced product `(c-1)(c-2)...(c-v)` that the cell-membership
/// chain of the Sudoku circuit carries after `v` factors.
pub open spec fn member_product(c: int, v: int) -> int
    decreases v,
{
    if v <= 1 {
        (crate::field::field_modulus() + c - 1) % crate::field::field_modulus()
    } else {
        (member_product(c, v - 1) * ((crate::field::field_modulus() + c - v)
            % crate::field::field_modulus())) % crate::field::field_modulus()
    }
}

/// A one-term combination over a cell witness evaluates, reduced, to
/// the stored cell value.
proof fn lemma_cell_singleton_value(
    lcv: Seq<(Variable, int)>,
    v: Variable,
    pubs: Seq<int>,
    wits: Seq<int>,
    cval: int,
)
    requires
        lcv =~= seq![(v, 1int)],
        v.kind == crate::lc::VarKind::Witness,
        0 <= v.index < wits.len(),
        wits[v.index as int] == cval,
        0 <= cval < 256,
    ensures
        lc_int(lcv, pubs, wits) == cval,
        lc_int(lcv, pubs, wits) % crate::field::field_modulus() == cval,
{
    crate::field::lemma_field_modulus_bounds();
    vstd::arithmetic::power2::lemma2_to64();
    vstd::arithmetic::power2::lemma_pow2_strictly_increases(8nat, 254nat);
    crate::lc::lemma_lc_int_singleton((v, 1int), pubs, wits);
    assert(lc_int(lcv, pubs, wits) == 1 * crate::lc::var_value(v, pubs, wits));
    assert(crate::lc::var_value(v, pubs, wits) == wits[v.index as int]);
    vstd::arithmetic::div_mod::lemma_small_mod(
        cval as nat,
        crate::field::field_modulus() as nat,
    );
}

/// A constant term evaluates to its coefficient.
proof fn lemma_const_singleton_value(lcv: Seq<(Variable, int)>, c: int, pubs: Seq<int>, wits: Seq<int>)
    requires
        lcv =~= seq![(Variable { kind: crate::lc::VarKind::Constant, index: 0 }, c)],
    ensures
        lc_int(lcv, pubs, wits) == c,
{
    crate::lc::lemma_lc_int_singleton(
        (Variable { kind: crate::lc::VarKind::Constant, index: 0 }, c),
        pubs,
        wits,
    );
    assert(crate::lc::var_value(
        Variable { kind: crate::lc::VarKind::Constant, index: 0 },
        pubs,
        wits,
    ) == 1);
    assert(c * 1 == c) by (nonlinear_arith);
}

/// The product of the first `v` positive integers.
pub open spec fn small_factorial(v: int) -> int
    decreases v,
{
    if v <= 1 {
        1
    } else {
        v * small_factorial(v - 1)
    }
}

/// For a cell in [1,9] the membership product vanishes: the matching
/// factor is zero and zero absorbs the rest of the chain.
proof fn lemma_member_product_in_range(c: int, v: int)
    requires
        1 <= c <= v <= 9,
    ensures
        member_product(c, v) == 0,
    decreases v,
{
    crate::field::lemma_field_modulus_bounds();
    let m = crate::field::field_modulus();
    vstd::arithmetic::div_mod::lemma_mod_self_0(m);
    vstd::arithmetic::div_mod::lemma_small_mod(0nat, m as nat);
    if v == 1 {
    } else if c == v {
        assert((m + c - v) % m == 0);
        assert(member_product(c, v - 1) * ((m + c - v) % m) == 0) by (nonlinear_arith)
            requires
                (m + c - v) % m == 0,
        ;
    } else {
        lemma_member_product_in_range(c, v - 1);
        assert(member_product(c, v - 1) * ((m + c - v) % m) == 0) by (nonlinear_arith)
            requires
                member_product(c, v - 1) == 0,
        ;
    }
}

/// For a cell above 9 (and below 256) the membership product is the
/// plain integer product of small positive factors, so it never
/// vanishes: the factors stay far below the modulus.
proof fn lemma_member_product_above_range(c: int, v: int)
    requires
        10 <= c < 256,
        1 <= v <= 9,
    ensures
        1 <= member_product(c, v),
        member_product(c, v) < vstd::arithmetic::power2::pow2((8 * v) as nat),
    decreases v,
{
    crate::field::lemma_field_modulus_bounds();
    vstd::arithmetic::power2::lemma2_to64();
    vstd::arithmetic::power2::lemma2_to64_rest();
    let m = crate::field::field_modulus();
    vstd::arithmetic::power2::lemma_pow2_strictly_increases((8 * v) as nat, 254nat);
    if v == 1 {
        vstd::arithmetic::div_mod::lemma_mod_multiples_vanish(1, c - 1, m);
        vstd::arithmetic::div_mod::lemma_small_mod((c - 1) as nat, m as nat);
        assert((m + c - 1) % m == c - 1);
    } else {
        lemma_member_product_above_range(c, v - 1);
        vstd::arithmetic::power2::lemma_pow2_strictly_increases((8 * (v - 1)) as nat, 254nat);
        vstd::arithmetic::div_mod::lemma_mod_multiples_vanish(1, c - v, m);
        vstd::arithmetic::div_mod::lemma_small_mod((c - v) as nat, m as nat);
        assert((m + c - v) % m == c - v);
        let prev = member_product(c, v - 1);
        vstd::arithmetic::power2::lemma_pow2_adds((8 * (v - 1)) as nat, 8nat);
        assert(1 <= prev * (c - v) && prev * (c - v) < vstd::arithmetic::power2::pow2(
            (8 * v) as nat,
        )) by (nonlinear_arith)
            requires
                1 <= prev,
                prev < vstd::arithmetic::power2::pow2((8 * (v - 1)) as nat),
                1 <= c - v < 256,
                vstd::arithmetic::power2::pow2((8 * v) as nat)
                    == vstd::arithmetic::power2::pow2((8 * (v - 1)) as nat)
                    * vstd::arithmetic::power2::pow2(8nat),
                vstd::arithmetic::power2::pow2(8nat) == 256,
        ;
        vstd::arithmetic::div_mod::lemma_small_mod((prev * (c - v)) as nat, m as nat);
    }
}

/// For a zero cell the membership chain alternates between `v!` and
/// `p - v!`, never vanishing.
proof fn lemma_member_product_zero_cell(v: int)
    requires
        1 <= v <= 9,
    ensures
        v % 2 == 1 ==> member_product(0, v) == crate::field::field_modulus() - small_factorial(v),
        v % 2 == 0 ==> member_product(0, v) == small_factorial(v),
        1 <= small_factorial(v) <= 362880,
    decreases v,
{
    crate::field::lemma_field_modulus_bounds();
    vstd::arithmetic::power2::lemma2_to64();
    vstd::arithmetic::power2::lemma2_to64_rest();
    vstd::arithmetic::power2::lemma_pow2_strictly_increases(64nat, 254nat);
    let m = crate::field::field_modulus();
    assert(small_factorial(1) == 1);
    assert(small_factorial(2) == 2);
    assert(small_factorial(3) == 6);
    assert(small_factorial(4) == 24);
    assert(small_factorial(5) == 120);
    assert(small_factorial(6) == 720);
    assert(small_factorial(7) == 5040);
    assert(small_factorial(8) == 40320);
    assert(small_factorial(9) == 362880);
    if v == 1 {
        vstd::arithmetic::div_mod::lemma_small_mod((m - 1) as nat, m as nat);
    } else {
        lemma_member_product_zero_cell(v - 1);
        vstd::arithmetic::div_mod::lemma_small_mod((m - v) as nat, m as nat);
        assert((m + 0 - v) % m == m - v);
        let f1 = small_factorial(v - 1);
        if (v - 1) % 2 == 1 {
            // previous value is m - (v-1)!, so the product is
            // m*k + v! for an integer k
            let k = m - f1 - v;
            assert((m - f1) * (m - v) == m * k + v * f1) by (nonlinear_arith)
                requires
                    k == m - f1 - v,
            ;
            assert(v * f1 == small_factorial(v));
            vstd::arithmetic::div_mod::lemma_mod_multiples_vanish(k, v * f1, m);
            vstd::arithmetic::div_mod::lemma_small_mod((v * f1) as nat, m as nat);
            assert(member_product(0, v) == small_factorial(v));
        } else {
            // previous value is (v-1)!, so the product is
            // m*(f1 - 1) + (m - v!)
            let k = f1 - 1;
            assert(f1 * (m - v) == m * k + (m - v * f1)) by (nonlinear_arith)
                requires
                    k == f1 - 1,
            ;
            assert(v * f1 == small_factorial(v));
            vstd::arithmetic::div_mod::lemma_mod_multiples_vanish(k, m - v * f1, m);
            vstd::arithmetic::div_mod::lemma_small_mod((m - v * f1) as nat, m as nat);
            assert(member_product(0, v) == m - small_factorial(v));
        }
    }
}

/// Law: for a byte-sized cell the membership product vanishes exactly
/// when the cell holds a value in [1,9] — the range the Sudoku circuit
/// enforces.
pub proof fn lemma_member_product_characterizes_range(c: int)
    requires
        0 <= c < 256,
    ensures
        (member_product(c, 9) == 0) <==> (1 <= c <= 9),
{
    crate::field::lemma_field_modulus_bounds();
    vstd::arithmetic::power2::lemma2_to64();
    vstd::arithmetic::power2::lemma2_to64_rest();
    vstd::arithmetic::power2::lemma_pow2_strictly_increases(64nat, 254nat);
    if 1 <= c <= 9 {
        lemma_member_product_in_range(c, 9);
    } else if c == 0 {
        lemma_member_product_zero_cell(9);
    } else {
        lemma_member_product_above_range(c, 9);
    }
}

/// Whether two cells of some row, column or box hold equal values.
pub open spec fn has_duplicate(grid: [[u8; 9]; 9]) -> bool {
    exists|g: int, e1: int, e2: int|
        0 <= g < 27 && 0 <= e1 < e2 < 9 && #[trigger] cell_value(grid, group_cell(g, e1))
            == #[trigger] cell_value(grid, group_cell(g, e2))
}

impl SudokuCircuit {
    /// Builds the Sudoku constraint system: eighty-one witness cells in
    /// row-major order, each constrained to the range [1,9] by the
    /// vanishing product `(cell-1)·(cell-2)·…·(cell-9) = 0`, and the
    /// nine cells of every row, column and box pairwise distinct. There
    /// are no public inputs. A satisfying assignment makes the product
    /// vanish, which in the prime-order field forces one factor to zero.
    #[verifier::rlimit(100)]
    #[verifier::spinoff_prover]
    pub fn build_constraints(&self, cs: &mut ConstraintSystem) -> (r: Result<(), Error>)
        requires
            cs_wf(old(cs)@),
            !old(cs)@.finalized,
            old(cs)@.num_public == 0,
            old(cs)@.num_witness == 0,
            old(cs)@.constraints.len() == 0,
        ensures
            cs_wf(final(cs)@),
            final(cs)@.mode == old(cs)@.mode,
            !final(cs)@.finalized,
            final(cs)@.num_public == 0,
            final(cs)@.pubs.len() == 0,
            (r == Err::<(), Error>(Error::MissingAssignment)) <==> (old(cs)@.mode
                == Mode::Witnessed && self.solution is None),
            r is Err ==> (r == Err::<(), Error>(Error::MissingAssignment) || r == Err::<
                (),
                Error,
            >(Error::DivisionByZero)),
            old(cs)@.mode == Mode::StructureOnly ==> r is Ok,
            r is Ok <==> !(old(cs)@.mode == Mode::Witnessed && (self.solution is None
                || has_duplicate(self.solution.unwrap()))),
            r is Ok ==> {
                &&& final(cs)@.num_witness == 1701
                &&& final(cs)@.constraints.len() == 1701
                &&& (old(cs)@.mode == Mode::Witnessed ==> (self.solution matches Some(grid)
                    && forall|k: int|
                        0 <= k < 81 ==> #[trigger] final(cs)@.wits[k] == cell_value(grid, k)))
                &&& (old(cs)@.mode == Mode::Witnessed ==> forall|t: int|
                    0 <= t < 81 ==> (crate::system::constraint_satisfied(
                        #[trigger] final(cs)@.constraints[9 * t + 8],
                        final(cs)@.pubs,
                        final(cs)@.wits,
                    ) <==> (1 <= cell_value(self.solution.unwrap(), t) <= 9)))
            },
    {
        let witnessed = match cs.mode {
            Mode::Witnessed => true,
            Mode::StructureOnly => false,
        };
        if witnessed && self.solution.is_none() {
            return Err(Error::MissingAssignment);
        }
        let mut cell_vars: Vec<Variable> = Vec::new();
        let mut i: usize = 0;
        while i < 81
            invariant
                cs_wf(cs@),
                !cs@.finalized,
                cs@.mode == old(cs)@.mode,
                witnessed == (cs@.mode == Mode::Witnessed),
                witnessed ==> self.solution is Some,
                i <= 81,
                cs@.num_public == 0,
                cs@.num_witness == i,
                cs@.constraints.len() == 0,
                witnessed ==> forall|k: int|
                    0 <= k < i ==> #[trigger] cs@.wits[k] == cell_value(self.solution.unwrap(), k),
                cell_vars@.len() == i,
                forall|k: int|
                    0 <= k < i ==> #[trigger] cell_vars@[k] == (crate::lc::Variable {
                        kind: crate::lc::VarKind::Witness,
                        index: k as usize,
                    }),
            decreases 81 - i,
        {
            let value = if witnessed {
                let grid = self.solution.unwrap();
                Some(fe_from_u64(grid[i / 9][i % 9] as u64))
            } else {
                None
            };
            let v = match cs.alloc_witness(value) {
                Ok(v) => v,
                Err(e) => {
                    proof {
                        assert(false);
                    }
                    return Err(e);
                },
            };
            cell_vars.push(v);
            i += 1;
        }
        // each cell is constrained to the range [1,9]: the product
        // (cell-1)(cell-2)...(cell-9) must vanish
        let mut t: usize = 0;
        while t < 81
            invariant
                cs_wf(cs@),
                !cs@.finalized,
                cs@.mode == old(cs)@.mode,
                witnessed == (cs@.mode == Mode::Witnessed),
                witnessed ==> self.solution is Some,
                t <= 81,
                cs@.num_public == 0,
                cs@.num_witness == 81 + 8 * t,
                cs@.constraints.len() == 9 * t,
                witnessed ==> forall|k: int|
                    0 <= k < 81 ==> #[trigger] cs@.wits[k] == cell_value(self.solution.unwrap(), k),
                witnessed ==> forall|t2: int|
                    0 <= t2 < t ==> (crate::system::constraint_satisfied(
                        #[trigger] cs@.constraints[9 * t2 + 8],
                        cs@.pubs,
                        cs@.wits,
                    ) <==> member_product(cell_value(self.solution.unwrap(), t2), 9) == 0),
                cell_vars@.len() == 81,
                forall|k: int|
                    0 <= k < 81 ==> #[trigger] cell_vars@[k] == (crate::lc::Variable {
                        kind: crate::lc::VarKind::Witness,
                        index: k as usize,
                    }),
            decreases 81 - t,
        {
            let cell_lc = LinearCombination::from_variable(cell_vars[t]);
            let one_c = LinearCombination::from_constant(FieldElement::from_u64(1));
            let mut acc = cell_lc.minus(&one_c);
            let mut v: u64 = 2;
            proof {
                assert forall|k: int|
                    0 <= k < acc@.len() implies crate::lc::var_wf(
                    (#[trigger] acc@[k]).0,
                    cs@.num_public,
                    cs@.num_witness,
                ) by {
                    if k == 0 {
                        assert(acc@[0].0 == cell_vars@[t as int]);
                    } else {
                        assert(acc@[1].0 == (crate::lc::Variable {
                            kind: crate::lc::VarKind::Constant,
                            index: 0,
                        }));
                    }
                }
                if witnessed {
                    crate::field::lemma_field_modulus_bounds();
                    let m = crate::field::field_modulus();
                    let grid = self.solution.unwrap();
                    let cval = cell_value(grid, t as int);
                    let neg1 = crate::lc::negated_terms(one_c@);
                    assert(acc@ =~= cell_lc@ + neg1);
                    crate::lc::lemma_lc_int_concat(cell_lc@, neg1, cs@.pubs, cs@.wits);
                    crate::lc::lemma_lc_int_neg(neg1, one_c@, cs@.pubs, cs@.wits);
                    lemma_cell_singleton_value(
                        cell_lc@,
                        cell_vars@[t as int],
                        cs@.pubs,
                        cs@.wits,
                        cval,
                    );
                    assert(crate::lc::lc_int(cell_lc@, cs@.pubs, cs@.wits) == cval);
                    assert(one_c@ =~= seq![
                        (crate::lc::Variable { kind: crate::lc::VarKind::Constant, index: 0 }, 1int),
                    ]);
                    lemma_const_singleton_value(one_c@, 1int, cs@.pubs, cs@.wits);
                    assert(crate::lc::lc_int(one_c@, cs@.pubs, cs@.wits) == 1);
                    crate::lc::lemma_plus_neg_mod(
                        cval,
                        crate::lc::lc_int(neg1, cs@.pubs, cs@.wits),
                        1,
                        m,
                    );
                    vstd::arithmetic::div_mod::lemma_small_mod(cval as nat, m as nat);
                    vstd::arithmetic::div_mod::lemma_small_mod(1nat, m as nat);
                    assert(crate::lc::lc_int(acc@, cs@.pubs, cs@.wits) % m == member_product(
                        cval,
                        1,
                    ));
                }
            }
            while v <= 9
                invariant
                    cs_wf(cs@),
                    !cs@.finalized,
                    cs@.mode == old(cs)@.mode,
                    witnessed == (cs@.mode == Mode::Witnessed),
                    witnessed ==> self.solution is Some,
                    t < 81,
                    2 <= v <= 10,
                    cs@.num_public == 0,
                    cs@.num_witness == 81 + 8 * t + (v - 2),
                    cs@.constraints.len() == 9 * t + (v - 2),
                    witnessed ==> forall|k: int|
                        0 <= k < 81 ==> #[trigger] cs@.wits[k] == cell_value(
                            self.solution.unwrap(),
                            k,
                        ),
                    cell_vars@.len() == 81,
                    forall|k: int|
                        0 <= k < 81 ==> #[trigger] cell_vars@[k] == (crate::lc::Variable {
                            kind: crate::lc::VarKind::Witness,
                            index: k as usize,
                        }),
                    lc_wf(acc@, cs@.num_public, cs@.num_witness),
                    cell_lc@ =~= seq![(cell_vars@[t as int], 1int)],
                    witnessed ==> forall|t2: int|
                        0 <= t2 < t ==> (crate::system::constraint_satisfied(
                            #[trigger] cs@.constraints[9 * t2 + 8],
                            cs@.pubs,
                            cs@.wits,
                        ) <==> member_product(cell_value(self.solution.unwrap(), t2), 9) == 0),
                    witnessed ==> crate::lc::lc_int(acc@, cs@.pubs, cs@.wits)
                        % crate::field::field_modulus() == member_product(
                        cell_value(self.solution.unwrap(), t as int),
                        v - 1,
                    ),
                decreases 10 - v,
            {
                let v_c = LinearCombination::from_constant(FieldElement::from_u64(v));
                let diff = cell_lc.minus(&v_c);
                proof {
                    assert forall|k: int|
                        0 <= k < diff@.len() implies crate::lc::var_wf(
                        (#[trigger] diff@[k]).0,
                        cs@.num_public,
                        cs@.num_witness,
                    ) by {
                        if k == 0 {
                            assert(diff@[0].0 == cell_vars@[t as int]);
                        } else {
                            assert(diff@[1].0 == (crate::lc::Variable {
                                kind: crate::lc::VarKind::Constant,
                                index: 0,
                            }));
                        }
                    }
                }
                let ghost wits_v = cs@.wits;
                let ghost acc_old = acc@;
                acc = match cs.multiply(&acc, &diff) {
                    Ok(next) => next,
                    Err(e) => {
                        proof {
                            assert(false);
                        }
                        return Err(e);
                    },
                };
                proof {
                    if witnessed {
                        crate::field::lemma_field_modulus_bounds();
                        let m = crate::field::field_modulus();
                        let grid = self.solution.unwrap();
                        let cval = cell_value(grid, t as int);
                        // value of the new difference factor
                        let negv = crate::lc::negated_terms(v_c@);
                        assert(diff@ =~= cell_lc@ + negv);
                        crate::lc::lemma_lc_int_concat(cell_lc@, negv, cs@.pubs, wits_v);
                        crate::lc::lemma_lc_int_neg(negv, v_c@, cs@.pubs, wits_v);
                        lemma_cell_singleton_value(
                            cell_lc@,
                            cell_vars@[t as int],
                            cs@.pubs,
                            wits_v,
                            cval,
                        );
                        assert(crate::lc::lc_int(cell_lc@, cs@.pubs, wits_v) == cval);
                        assert(v_c@ =~= seq![
                            (
                                crate::lc::Variable {
                                    kind: crate::lc::VarKind::Constant,
                                    index: 0,
                                },
                                v as int,
                            ),
                        ]);
                        lemma_const_singleton_value(v_c@, v as int, cs@.pubs, wits_v);
                        assert(crate::lc::lc_int(v_c@, cs@.pubs, wits_v) == v as int);
                        crate::lc::lemma_plus_neg_mod(
                            cval,
                            crate::lc::lc_int(negv, cs@.pubs, wits_v),
                            v as int,
                            m,
                        );
                        vstd::arithmetic::div_mod::lemma_small_mod(cval as nat, m as nat);
                        vstd::arithmetic::div_mod::lemma_small_mod(v as nat, m as nat);
                        assert(crate::lc::lc_int(diff@, cs@.pubs, wits_v) % m == (m + cval
                            - v) % m);
                        // the fresh product witness carries the next chain value
                        let tv = crate::lc::Variable {
                            kind: crate::lc::VarKind::Witness,
                            index: (cs@.num_witness - 1) as usize,
                        };
                        crate::lc::lemma_fresh_witness_value(acc@, tv, cs@.pubs, cs@.wits);
                        vstd::arithmetic::div_mod::lemma_mod_twice(
                            member_product(cval, v - 1),
                            m,
                        );
                        assert(cs@.wits.last() == ((crate::lc::lc_int(acc_old, cs@.pubs, wits_v)
                            % m) * (crate::lc::lc_int(diff@, cs@.pubs, wits_v) % m)) % m);
                        assert(crate::lc::lc_int(acc_old, cs@.pubs, wits_v) % m == member_product(
                            cval,
                            v - 1,
                        ));
                        assert(cs@.wits.last() == (member_product(cval, v - 1) * ((m + cval
                            - v) % m)) % m);
                        assert(member_product(cval, v as int) == (member_product(cval, v - 1) * ((
                        m + cval - (v as int)) % m)) % m);
                        vstd::arithmetic::div_mod::lemma_mod_division_less_than_divisor(
                            member_product(cval, v - 1) * ((m + cval - (v as int)) % m),
                            m,
                        );
                        vstd::arithmetic::div_mod::lemma_small_mod(
                            member_product(cval, v as int) as nat,
                            m as nat,
                        );
                        assert(crate::lc::lc_int(acc@, cs@.pubs, cs@.wits) % m == member_product(
                            cval,
                            v as int,
                        ));
                        // earlier membership constraints keep holding
                        assert forall|t2: int|
                            0 <= t2 < t implies (crate::system::constraint_satisfied(
                            #[trigger] cs@.constraints[9 * t2 + 8],
                            cs@.pubs,
                            cs@.wits,
                        ) <==> member_product(cell_value(grid, t2), 9) == 0) by {
                            assert(crate::system::constraint_wf(
                                cs@.constraints[9 * t2 + 8],
                                cs@.num_public,
                                wits_v.len() as int,
                            ));
                            crate::system::lemma_constraint_satisfied_stable(
                                cs@.constraints[9 * t2 + 8],
                                cs@.pubs,
                                wits_v,
                                cs@.wits,
                            );
                        }
                    }
                }
                v += 1;
            }
            let zero_lc = LinearCombination::new();
            cs.enforce_equal(&acc, &zero_lc);
            proof {
                if witnessed {
                    crate::field::lemma_field_modulus_bounds();
                    let m = crate::field::field_modulus();
                    let grid = self.solution.unwrap();
                    let cval = cell_value(grid, t as int);
                    let cvn = cs@.constraints.last();
                    vstd::arithmetic::div_mod::lemma_mod_twice(member_product(cval, 9), m);
                    vstd::arithmetic::div_mod::lemma_small_mod(0nat, m as nat);
                    assert(crate::lc::lc_int(
                        Seq::<(crate::lc::Variable, int)>::empty(),
                        cs@.pubs,
                        cs@.wits,
                    ) == 0);
                    assert(crate::system::constraint_satisfied(cvn, cs@.pubs, cs@.wits) <==> (
                    member_product(cval, 9) == 0));
                    assert(cs@.constraints.len() == 9 * t + 9);
                }
            }
            t += 1;
        }
        // rows, columns and boxes must each hold nine distinct values
        let mut g: usize = 0;
        while g < 27
            invariant
                cs_wf(cs@),
                !cs@.finalized,
                cs@.mode == old(cs)@.mode,
                g <= 27,
                cs@.num_public == 0,
                witnessed == (cs@.mode == Mode::Witnessed),
                witnessed ==> self.solution is Some,
                cs@.num_witness == 729 + 36 * g,
                cs@.constraints.len() == 729 + 36 * g,
                witnessed ==> forall|k: int|
                    0 <= k < 81 ==> #[trigger] cs@.wits[k] == cell_value(self.solution.unwrap(), k),
                witnessed ==> forall|g2: int, e1: int, e2: int|
                    0 <= g2 < g && 0 <= e1 < e2 < 9 ==> #[trigger] cell_value(
                        self.solution.unwrap(),
                        group_cell(g2, e1),
                    ) != #[trigger] cell_value(self.solution.unwrap(), group_cell(g2, e2)),
                witnessed ==> forall|t2: int|
                    0 <= t2 < 81 ==> (crate::system::constraint_satisfied(
                        #[trigger] cs@.constraints[9 * t2 + 8],
                        cs@.pubs,
                        cs@.wits,
                    ) <==> member_product(cell_value(self.solution.unwrap(), t2), 9) == 0),
                cell_vars@.len() == 81,
                forall|k: int|
                    0 <= k < 81 ==> #[trigger] cell_vars@[k] == (crate::lc::Variable {
                        kind: crate::lc::VarKind::Witness,
                        index: k as usize,
                    }),
            decreases 27 - g,
        {
            let mut group: Vec<LinearCombination> = Vec::new();
            let mut e: usize = 0;
            while e < 9
                invariant
                    e <= 9,
                    group@.len() == e,
                    cell_vars@.len() == 81,
                    cs@.num_public == 0,
                    81 <= cs@.num_witness,
                    cs@.num_witness <= usize::MAX,
                    g < 27,
                    forall|k: int|
                        0 <= k < 81 ==> #[trigger] cell_vars@[k] == (crate::lc::Variable {
                            kind: crate::lc::VarKind::Witness,
                            index: k as usize,
                        }),
                    forall|k: int|
                        0 <= k < e ==> lc_wf(
                            (#[trigger] group@[k])@,
                            cs@.num_public,
                            cs@.num_witness,
                        ),
                    forall|k: int|
                        0 <= k < e ==> 0 <= group_cell(g as int, k) < 81 && (#[trigger] group@[k])@
                            =~= seq![
                            (
                                crate::lc::Variable {
                                    kind: crate::lc::VarKind::Witness,
                                    index: group_cell(g as int, k) as usize,
                                },
                                1int,
                            ),
                        ],
                decreases 9 - e,
            {
                let idx: usize = if g < 9 {
                    g * 9 + e
                } else if g < 18 {
                    e * 9 + (g - 9)
                } else {
                    let b = g - 18;
                    ((b / 3) * 3 + e / 3) * 9 + (b % 3) * 3 + e % 3
                };
                proof {
                    lemma_group_cell_bounds(g as int, e as int);
                    assert(idx as int == group_cell(g as int, e as int));
                    assert(idx < 81);
                }
                group.push(LinearCombination::from_variable(cell_vars[idx]));
                e += 1;
            }
            proof {
                if witnessed {
                    crate::field::lemma_field_modulus_bounds();
                    vstd::arithmetic::power2::lemma2_to64();
                    vstd::arithmetic::power2::lemma2_to64_rest();
                    vstd::arithmetic::power2::lemma_pow2_strictly_increases(16nat, 254nat);
                    let grid = self.solution.unwrap();
                    assert forall|k: int|
                        0 <= k < 9 implies crate::lc::lc_int(
                        (#[trigger] group@[k])@,
                        cs@.pubs,
                        cs@.wits,
                    ) % crate::field::field_modulus() == cell_value(
                        grid,
                        group_cell(g as int, k),
                    ) by {
                        let idx2 = group_cell(g as int, k);
                        assert(cs@.wits[idx2] == cell_value(grid, idx2));
                        assert(0 <= cell_value(grid, idx2) < 256);
                        lemma_cell_singleton_value(
                            group@[k]@,
                            crate::lc::Variable {
                                kind: crate::lc::VarKind::Witness,
                                index: idx2 as usize,
                            },
                            cs@.pubs,
                            cs@.wits,
                            cell_value(grid, idx2),
                        );
                    }
                }
            }
            let ghost wits_g = cs@.wits;
            match cs.pairwise_distinct(&group) {
                Ok(()) => {},
                Err(e2) => {
                    proof {
                        if witnessed {
                            let grid = self.solution.unwrap();
                            assert(exists|a: int, b: int|
                                0 <= a < b < group@.len() && #[trigger] crate::lc::lc_int(
                                    group@[a]@,
                                    cs@.pubs,
                                    wits_g,
                                ) % crate::field::field_modulus() == #[trigger] crate::lc::lc_int(
                                    group@[b]@,
                                    cs@.pubs,
                                    wits_g,
                                ) % crate::field::field_modulus());
                            let (a, b) = choose|a: int, b: int|
                                0 <= a < b < group@.len() && #[trigger] crate::lc::lc_int(
                                    group@[a]@,
                                    cs@.pubs,
                                    wits_g,
                                ) % crate::field::field_modulus() == #[trigger] crate::lc::lc_int(
                                    group@[b]@,
                                    cs@.pubs,
                                    wits_g,
                                ) % crate::field::field_modulus();
                            assert(cell_value(grid, group_cell(g as int, a)) == cell_value(
                                grid,
                                group_cell(g as int, b),
                            ));
                            assert(has_duplicate(grid));
                        }
                    }
                    return Err(e2);
                },
            }
            proof {
                if witnessed {
                    let grid = self.solution.unwrap();
                    assert forall|e1: int, e2: int|
                        0 <= e1 < e2 < 9 implies #[trigger] cell_value(
                        grid,
                        group_cell(g as int, e1),
                    ) != #[trigger] cell_value(grid, group_cell(g as int, e2)) by {
                        assert(crate::lc::lc_int(group@[e1]@, cs@.pubs, wits_g)
                            % crate::field::field_modulus() != crate::lc::lc_int(
                            group@[e2]@,
                            cs@.pubs,
                            wits_g,
                        ) % crate::field::field_modulus());
                    }
                    assert forall|t2: int|
                        0 <= t2 < 81 implies (crate::system::constraint_satisfied(
                        #[trigger] cs@.constraints[9 * t2 + 8],
                        cs@.pubs,
                        cs@.wits,
                    ) <==> member_product(cell_value(grid, t2), 9) == 0) by {
                        assert(crate::system::constraint_wf(
                            cs@.constraints[9 * t2 + 8],
                            cs@.num_public,
                            wits_g.len() as int,
                        ));
                        crate::system::lemma_constraint_satisfied_stable(
                            cs@.constraints[9 * t2 + 8],
                            cs@.pubs,
                            wits_g,
                            cs@.wits,
                        );
                    }
                }
            }
            g += 1;
        }
        proof {
            if witnessed {
                let grid = self.solution.unwrap();
                assert forall|t: int|
                    0 <= t < 81 implies (crate::system::constraint_satisfied(
                    #[trigger] cs@.constraints[9 * t + 8],
                    cs@.pubs,
                    cs@.wits,
                ) <==> (1 <= cell_value(grid, t) <= 9)) by {
                    assert(0 <= cell_value(grid, t) < 256);
                    lemma_member_product_characterizes_range(cell_value(grid, t));
                }
                if has_duplicate(grid) {
                    let (g2, e1, e2) = choose|g2: int, e1: int, e2: int|
                        0 <= g2 < 27 && 0 <= e1 < e2 < 9 && #[trigger] cell_value(
                            grid,
                            group_cell(g2, e1),
                        ) == #[trigger] cell_value(grid, group_cell(g2, e2));
                    assert(false);
                }
            }
        }
        Ok(())
    }
}

impl CircuitDefinition for SudokuCircuit {
    fn synthesize(&self, cs: &mut ConstraintSystem) -> (r: Result<(), Error>) {
        self.build_constraints(cs)
    }
}

} // verus!
