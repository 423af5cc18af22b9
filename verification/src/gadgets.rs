//! The gadget library: reusable constraint patterns built from the
//! primitive `enforce` operation.
//!
//! Each gadget records a fixed constraint shape; in `Witnessed` mode the
//! value-dependent gadgets also compute the auxiliary witnesses they
//! allocate. In `StructureOnly` mode the constraint shape is still
//! recorded but no value-dependent arithmetic is performed.

use vstd::prelude::*;

verus! {

use vstd::arithmetic::div_mod::{
    lemma_mod_division_less_than_divisor, lemma_mod_self_0, lemma_mod_twice,
    lemma_mul_mod_noop_right, lemma_small_mod,
};
use vstd::arithmetic::power2::pow2;
use crate::field::{
    fe_bits, fe_inverse, fe_mul, fe_one, fe_sub, fe_val, field_modulus,
    lemma_field_modulus_bounds, FieldElement,
};
use crate::lc::{
    lc_int, lc_wf, lemma_diff_zero_iff_equal, lemma_lc_int_concat, lemma_lc_int_neg,
    lemma_fresh_witness_value, lemma_lc_int_singleton, lemma_lc_int_stable, lemma_plus_neg_mod,
    lemma_sub_zero_iff_equal, neg_coeff, negated_terms, var_value, var_wf, LinearCombination,
    Variable, VarKind,
};
use crate::system::{
    constraint_satisfied, constraint_wf, cs_wf, lemma_constraint_satisfied_stable,
    lemma_constraint_wf_mono, ConstraintSystem, ConstraintView, Mode,
};
use crate::Error;

impl ConstraintSystem {
    /// Records `(x - y) · 1 = 0`: the new constraint holds under an
    /// assignment exactly when `x` and `y` evaluate to the same field
    /// value.
    pub fn enforce_equal(&mut self, x: &LinearCombination, y: &LinearCombination)
        requires
            cs_wf(old(self)@),
            lc_wf(x@, old(self)@.num_public, old(self)@.num_witness),
            lc_wf(y@, old(self)@.num_public, old(self)@.num_witness),
        ensures
            cs_wf(final(self)@),
            final(self)@.mode == old(self)@.mode,
            final(self)@.finalized == old(self)@.finalized,
            final(self)@.num_public == old(self)@.num_public,
            final(self)@.num_witness == old(self)@.num_witness,
            final(self)@.pubs == old(self)@.pubs,
            final(self)@.wits == old(self)@.wits,
            final(self)@.constraints.len() == old(self)@.constraints.len() + 1,
            forall|k: int|
                0 <= k < old(self)@.constraints.len() ==> final(self)@.constraints[k] == old(
                    self,
                )@.constraints[k],
            forall|pubs: Seq<int>, wits: Seq<int>|
                #[trigger] constraint_satisfied(final(self)@.constraints.last(), pubs, wits) == (
                lc_int(x@, pubs, wits) % field_modulus() == lc_int(y@, pubs, wits)
                    % field_modulus()),
    {
        let d = x.minus(y);
        let one_lc = LinearCombination::from_variable(Variable::constant_one());
        let zero_lc = LinearCombination::new();
        proof {
            assert forall|i: int|
                0 <= i < d@.len() implies var_wf(
                (#[trigger] d@[i]).0,
                old(self)@.num_public,
                old(self)@.num_witness,
            ) by {
                if i < x@.len() {
                    assert(var_wf(x@[i].0, old(self)@.num_public, old(self)@.num_witness));
                } else {
                    assert(var_wf(
                        y@[i - x@.len()].0,
                        old(self)@.num_public,
                        old(self)@.num_witness,
                    ));
                }
            }
        }
        self.enforce(&d, &one_lc, &zero_lc);
        proof {
            let m = field_modulus();
            lemma_field_modulus_bounds();
            let cv = final(self)@.constraints.last();
            let negy = negated_terms(y@);
            assert(cv.a =~= x@ + negy);
            assert(cv.b =~= seq![(Variable { kind: VarKind::Constant, index: 0 }, 1int)]);
            assert(cv.c =~= Seq::<(Variable, int)>::empty());
            assert forall|pubs: Seq<int>, wits: Seq<int>|
                #[trigger] constraint_satisfied(cv, pubs, wits) == (lc_int(x@, pubs, wits) % m
                == lc_int(y@, pubs, wits) % m) by {
                lemma_lc_int_concat(x@, negy, pubs, wits);
                lemma_lc_int_neg(negy, y@, pubs, wits);
                let xx = lc_int(x@, pubs, wits);
                let ny = lc_int(negy, pubs, wits);
                let yy = lc_int(y@, pubs, wits);
                lemma_field_modulus_bounds();
                lemma_lc_int_singleton(
                    (Variable { kind: VarKind::Constant, index: 0 }, 1int),
                    pubs,
                    wits,
                );
                assert(lc_int(cv.b, pubs, wits) == 1);
                assert(lc_int(cv.c, pubs, wits) == 0);
                lemma_small_mod(1nat, m as nat);
                lemma_small_mod(0nat, m as nat);
                lemma_mod_twice(xx + ny, m);
                lemma_diff_zero_iff_equal(xx, ny, yy);
            }
        }
    }

    /// Records `x · (x - 1) = 0`. A field value of `0` or `1` always
    /// satisfies the new constraint, and the constraint holds exactly
    /// when the reduced product `x · (x - 1)` vanishes.
    pub fn enforce_boolean(&mut self, x: &LinearCombination)
        requires
            cs_wf(old(self)@),
            lc_wf(x@, old(self)@.num_public, old(self)@.num_witness),
        ensures
            cs_wf(final(self)@),
            final(self)@.mode == old(self)@.mode,
            final(self)@.finalized == old(self)@.finalized,
            final(self)@.num_public == old(self)@.num_public,
            final(self)@.num_witness == old(self)@.num_witness,
            final(self)@.pubs == old(self)@.pubs,
            final(self)@.wits == old(self)@.wits,
            final(self)@.constraints.len() == old(self)@.constraints.len() + 1,
            forall|k: int|
                0 <= k < old(self)@.constraints.len() ==> final(self)@.constraints[k] == old(
                    self,
                )@.constraints[k],
            forall|pubs: Seq<int>, wits: Seq<int>|
                #[trigger] constraint_satisfied(final(self)@.constraints.last(), pubs, wits) == ((
                lc_int(x@, pubs, wits) % field_modulus()) * ((field_modulus() + lc_int(
                    x@,
                    pubs,
                    wits,
                ) % field_modulus() - 1) % field_modulus()) % field_modulus() == 0),
            forall|pubs: Seq<int>, wits: Seq<int>|
                (lc_int(x@, pubs, wits) % field_modulus() == 0 || lc_int(x@, pubs, wits)
                    % field_modulus() == 1) ==> #[trigger] constraint_satisfied(
                    final(self)@.constraints.last(),
                    pubs,
                    wits,
                ),
    {
        let one_c = LinearCombination::from_constant(fe_one());
        let b = x.minus(&one_c);
        let zero_lc = LinearCombination::new();
        proof {
            assert forall|i: int|
                0 <= i < b@.len() implies var_wf(
                (#[trigger] b@[i]).0,
                old(self)@.num_public,
                old(self)@.num_witness,
            ) by {
                if i < x@.len() {
                    assert(var_wf(x@[i].0, old(self)@.num_public, old(self)@.num_witness));
                } else {
                    assert(b@[i].0 == (Variable { kind: VarKind::Constant, index: 0 }));
                }
            }
        }
        self.enforce(x, &b, &zero_lc);
        proof {
            let m = field_modulus();
            lemma_field_modulus_bounds();
            let cv = final(self)@.constraints.last();
            let neg1 = negated_terms(one_c@);
            assert(cv.a =~= x@);
            assert(cv.b =~= x@ + neg1);
            assert(cv.c =~= Seq::<(Variable, int)>::empty());
            assert forall|pubs: Seq<int>, wits: Seq<int>|
                #[trigger] constraint_satisfied(cv, pubs, wits) == ((lc_int(x@, pubs, wits) % m) * (
            (m + lc_int(x@, pubs, wits) % m - 1) % m) % m == 0) by {
                lemma_lc_int_concat(x@, neg1, pubs, wits);
                lemma_lc_int_neg(neg1, one_c@, pubs, wits);
                lemma_field_modulus_bounds();
                let xx = lc_int(x@, pubs, wits);
                let n1 = lc_int(neg1, pubs, wits);
                lemma_lc_int_singleton(
                    (Variable { kind: VarKind::Constant, index: 0 }, 1int),
                    pubs,
                    wits,
                );
                assert(one_c@ =~= seq![(Variable { kind: VarKind::Constant, index: 0 }, 1int)]);
                assert(lc_int(one_c@, pubs, wits) == 1);
                lemma_small_mod(0nat, m as nat);
                lemma_small_mod(1nat, m as nat);
                lemma_plus_neg_mod(xx, n1, 1, m);
                assert(lc_int(cv.c, pubs, wits) == 0);
            }
            assert forall|pubs: Seq<int>, wits: Seq<int>|
                (lc_int(x@, pubs, wits) % m == 0 || lc_int(x@, pubs, wits) % m == 1)
                    implies #[trigger] constraint_satisfied(cv, pubs, wits) by {
                lemma_field_modulus_bounds();
                let xm = lc_int(x@, pubs, wits) % m;
                lemma_small_mod(0nat, m as nat);
                let t = (m + xm - 1) % m;
                if xm == 0 {
                    assert(xm * t == 0) by (nonlinear_arith)
                        requires
                            xm == 0,
                    ;
                } else {
                    lemma_mod_self_0(m);
                    assert(t == 0);
                    assert(xm * t == 0) by (nonlinear_arith)
                        requires
                            t == 0,
                    ;
                }
                assert((xm * t) % m == 0);
            }
        }
    }

    /// Allocates an auxiliary witness `w` and records `(x - y) · w = 1`.
    /// In `Witnessed` mode `w` is the field inverse of `x - y`, which
    /// fails explicitly with `DivisionByZero` when the two sides evaluate
    /// equal; the gadget never loops or reads undefined state. A
    /// satisfied instance of the new constraint forces `x` and `y` apart
    /// under every assignment.
    #[verifier::rlimit(60)]
    pub fn enforce_not_equal(&mut self, x: &LinearCombination, y: &LinearCombination) -> (r:
        Result<(), Error>)
        requires
            cs_wf(old(self)@),
            lc_wf(x@, old(self)@.num_public, old(self)@.num_witness),
            lc_wf(y@, old(self)@.num_public, old(self)@.num_witness),
            old(self)@.num_public + old(self)@.num_witness + 2 <= usize::MAX,
        ensures
            cs_wf(final(self)@),
            final(self)@.mode == old(self)@.mode,
            final(self)@.finalized == old(self)@.finalized,
            final(self)@.num_public == old(self)@.num_public,
            final(self)@.pubs == old(self)@.pubs,
            r is Err ==> final(self)@ == old(self)@,
            (r == Err::<(), Error>(Error::AllocationAfterFinalize)) <==> old(self)@.finalized,
            r is Ok <==> (!old(self)@.finalized && !(old(self)@.mode == Mode::Witnessed && lc_int(
                x@,
                old(self)@.pubs,
                old(self)@.wits,
            ) % field_modulus() == lc_int(y@, old(self)@.pubs, old(self)@.wits)
                % field_modulus())),
            old(self)@.mode == Mode::Witnessed && !old(self)@.finalized ==> ((r == Err::<(),
                Error,
            >(Error::DivisionByZero)) <==> lc_int(x@, old(self)@.pubs, old(self)@.wits)
                % field_modulus() == lc_int(y@, old(self)@.pubs, old(self)@.wits)
                % field_modulus()),
            r is Ok ==> {
                &&& final(self)@.num_witness == old(self)@.num_witness + 1
                &&& old(self)@.wits.len() <= final(self)@.wits.len()
                &&& (forall|i: int|
                    0 <= i < old(self)@.wits.len()
                        ==> old(self)@.wits[i] == final(self)@.wits[i])
                &&& final(self)@.constraints.len() == old(self)@.constraints.len() + 1
                &&& forall|k: int|
                    0 <= k < old(self)@.constraints.len() ==> final(self)@.constraints[k] == old(
                        self,
                    )@.constraints[k]
                &&& forall|pubs: Seq<int>, wits: Seq<int>|
                    #[trigger] constraint_satisfied(final(self)@.constraints.last(), pubs, wits)
                        ==> lc_int(x@, pubs, wits) % field_modulus() != lc_int(y@, pubs, wits)
                        % field_modulus()
                &&& (old(self)@.mode == Mode::Witnessed ==> constraint_satisfied(
                    final(self)@.constraints.last(),
                    final(self)@.pubs,
                    final(self)@.wits,
                ))
            },
    {
        if self.finalized {
            return Err(Error::AllocationAfterFinalize);
        }
        proof {
            lemma_field_modulus_bounds();
        }
        let w_var: Variable;
        let mut witnessed_inverse = false;
        match self.mode {
            Mode::Witnessed => {
                let xv = match self.evaluate(x) {
                    Ok(v) => v,
                    Err(e) => {
                        proof {
                            assert(false);
                        }
                        return Err(e);
                    },
                };
                let yv = match self.evaluate(y) {
                    Ok(v) => v,
                    Err(e) => {
                        proof {
                            assert(false);
                        }
                        return Err(e);
                    },
                };
                let d = fe_sub(&xv, &yv);
                proof {
                    let m = field_modulus();
                    let xm = lc_int(x@, self@.pubs, self@.wits) % m;
                    let ym = lc_int(y@, self@.pubs, self@.wits) % m;
                    lemma_mod_division_less_than_divisor(lc_int(x@, self@.pubs, self@.wits), m);
                    lemma_mod_division_less_than_divisor(lc_int(y@, self@.pubs, self@.wits), m);
                    lemma_sub_zero_iff_equal(xm, ym, m);
                    lemma_mod_twice(m + xm - ym, m);
                }
                let w = match fe_inverse(&d) {
                    Some(w) => w,
                    None => {
                        return Err(Error::DivisionByZero);
                    },
                };
                w_var = match self.alloc_witness(Some(w)) {
                    Ok(v) => v,
                    Err(e) => {
                        proof {
                            assert(false);
                        }
                        return Err(e);
                    },
                };
                witnessed_inverse = true;
            },
            Mode::StructureOnly => {
                w_var = match self.alloc_witness(None) {
                    Ok(v) => v,
                    Err(e) => {
                        proof {
                            assert(false);
                        }
                        return Err(e);
                    },
                };
            },
        }
        let d_lc = x.minus(y);
        let w_lc = LinearCombination::from_variable(w_var);
        let one_c = LinearCombination::from_variable(Variable::constant_one());
        proof {
            assert forall|i: int|
                0 <= i < d_lc@.len() implies var_wf(
                (#[trigger] d_lc@[i]).0,
                self@.num_public,
                self@.num_witness,
            ) by {
                if i < x@.len() {
                    assert(var_wf(x@[i].0, old(self)@.num_public, old(self)@.num_witness));
                } else {
                    assert(var_wf(
                        y@[i - x@.len()].0,
                        old(self)@.num_public,
                        old(self)@.num_witness,
                    ));
                }
            }
        }
        self.enforce(&d_lc, &w_lc, &one_c);
        proof {
            let m = field_modulus();
            let cv = final(self)@.constraints.last();
            let negy = negated_terms(y@);
            assert(cv.a =~= x@ + negy);
            assert(cv.b =~= seq![(w_var, 1int)]);
            assert(cv.c =~= seq![(Variable { kind: VarKind::Constant, index: 0 }, 1int)]);
            assert forall|pubs: Seq<int>, wits: Seq<int>|
                #[trigger] constraint_satisfied(cv, pubs, wits) implies lc_int(x@, pubs, wits) % m
                != lc_int(y@, pubs, wits) % m by {
                lemma_lc_int_concat(x@, negy, pubs, wits);
                lemma_lc_int_neg(negy, y@, pubs, wits);
                let xx = lc_int(x@, pubs, wits);
                let ny = lc_int(negy, pubs, wits);
                let yy = lc_int(y@, pubs, wits);
                lemma_field_modulus_bounds();
                lemma_lc_int_singleton(
                    (Variable { kind: VarKind::Constant, index: 0 }, 1int),
                    pubs,
                    wits,
                );
                assert(lc_int(cv.c, pubs, wits) == 1);
                lemma_small_mod(1nat, m as nat);
                lemma_small_mod(0nat, m as nat);
                if xx % m == yy % m {
                    lemma_diff_zero_iff_equal(xx, ny, yy);
                    assert((xx + ny) % m == 0);
                    let bm = lc_int(cv.b, pubs, wits) % m;
                    assert(((xx + ny) % m) * bm == 0) by (nonlinear_arith)
                        requires
                            (xx + ny) % m == 0,
                    ;
                    assert(constraint_satisfied(cv, pubs, wits) == ((0int % m) == 1));
                    assert(false);
                }
            }
            if old(self)@.mode == Mode::Witnessed && witnessed_inverse {
                let pubs = final(self)@.pubs;
                let wits = final(self)@.wits;
                lemma_lc_int_stable(x@, pubs, old(self)@.wits, wits);
                lemma_lc_int_stable(y@, pubs, old(self)@.wits, wits);
                lemma_lc_int_concat(x@, negy, pubs, wits);
                lemma_lc_int_neg(negy, y@, pubs, wits);
                let xx = lc_int(x@, pubs, wits);
                let ny = lc_int(negy, pubs, wits);
                let yy = lc_int(y@, pubs, wits);
                lemma_plus_neg_mod(xx, ny, yy, m);
                lemma_lc_int_singleton((w_var, 1int), pubs, wits);
                assert(w_var.kind == VarKind::Witness);
                assert(w_var.index as int == wits.len() - 1);
                assert(var_value(w_var, pubs, wits) == wits[w_var.index as int]);
                assert(lc_int(cv.b, pubs, wits) == 1 * var_value(w_var, pubs, wits));
                assert(lc_int(cv.b, pubs, wits) == wits.last());
                lemma_lc_int_singleton(
                    (Variable { kind: VarKind::Constant, index: 0 }, 1int),
                    pubs,
                    wits,
                );
                assert(lc_int(cv.c, pubs, wits) == 1);
                lemma_mod_division_less_than_divisor(xx, m);
                lemma_mod_division_less_than_divisor(yy, m);
                lemma_mod_twice(m + xx % m - yy % m, m);
                lemma_mul_mod_noop_right((xx + ny) % m, wits.last(), m);
                lemma_small_mod(1nat, m as nat);
            }
        }
        Ok(())
    }
}


impl ConstraintSystem {
    /// Allocates an auxiliary witness `t` and records `x · y = t`,
    /// returning the combination `1 · t`. In `Witnessed` mode `t` is the
    /// field product of the two evaluations, so the new constraint holds
    /// under the extended assignment.
    #[verifier::rlimit(60)]
    pub fn multiply(&mut self, x: &LinearCombination, y: &LinearCombination) -> (r: Result<
        LinearCombination,
        Error,
    >)
        requires
            cs_wf(old(self)@),
            lc_wf(x@, old(self)@.num_public, old(self)@.num_witness),
            lc_wf(y@, old(self)@.num_public, old(self)@.num_witness),
            old(self)@.num_public + old(self)@.num_witness + 2 <= usize::MAX,
        ensures
            cs_wf(final(self)@),
            final(self)@.mode == old(self)@.mode,
            final(self)@.finalized == old(self)@.finalized,
            final(self)@.num_public == old(self)@.num_public,
            final(self)@.pubs == old(self)@.pubs,
            r is Err ==> final(self)@ == old(self)@,
            r is Ok <==> !old(self)@.finalized,
            r is Err ==> r == Err::<LinearCombination, Error>(Error::AllocationAfterFinalize),
            r matches Ok(t) ==> {
                &&& old(self)@.wits.len() <= final(self)@.wits.len()
                &&& (forall|i: int|
                    0 <= i < old(self)@.wits.len()
                        ==> old(self)@.wits[i] == final(self)@.wits[i])
                &&& t@ =~= seq![
                    (Variable { kind: VarKind::Witness, index: old(self).num_witness }, 1int),
                ]
                &&& lc_wf(t@, final(self)@.num_public, final(self)@.num_witness)
                &&& final(self)@.num_witness == old(self)@.num_witness + 1
                &&& final(self)@.constraints.len() == old(self)@.constraints.len() + 1
                &&& forall|k: int|
                    0 <= k < old(self)@.constraints.len() ==> final(self)@.constraints[k] == old(
                        self,
                    )@.constraints[k]
                &&& final(self)@.constraints.last().a == x@
                &&& final(self)@.constraints.last().b == y@
                &&& final(self)@.constraints.last().c == t@
                &&& (old(self)@.mode == Mode::Witnessed ==> final(self)@.wits =~= old(
                    self,
                )@.wits.push(
                    ((lc_int(x@, old(self)@.pubs, old(self)@.wits) % field_modulus()) * (lc_int(
                        y@,
                        old(self)@.pubs,
                        old(self)@.wits,
                    ) % field_modulus())) % field_modulus(),
                ))
                &&& (old(self)@.mode == Mode::Witnessed ==> constraint_satisfied(
                    final(self)@.constraints.last(),
                    final(self)@.pubs,
                    final(self)@.wits,
                ))
            },
    {
        if self.finalized {
            return Err(Error::AllocationAfterFinalize);
        }
        let value: Option<FieldElement> = match self.mode {
            Mode::Witnessed => {
                let xv = match self.evaluate(x) {
                    Ok(v) => v,
                    Err(e) => {
                        proof {
                            assert(false);
                        }
                        return Err(e);
                    },
                };
                let yv = match self.evaluate(y) {
                    Ok(v) => v,
                    Err(e) => {
                        proof {
                            assert(false);
                        }
                        return Err(e);
                    },
                };
                Some(fe_mul(&xv, &yv))
            },
            Mode::StructureOnly => None,
        };
        let t_var = match self.alloc_witness(value) {
            Ok(v) => v,
            Err(e) => {
                proof {
                    assert(false);
                }
                return Err(e);
            },
        };
        let t_lc = LinearCombination::from_variable(t_var);
        self.enforce(x, y, &t_lc);
        proof {
            let m = field_modulus();
            lemma_field_modulus_bounds();
            let cv = final(self)@.constraints.last();
            if old(self)@.mode == Mode::Witnessed {
                let pubs = final(self)@.pubs;
                let wits = final(self)@.wits;
                let xx0 = lc_int(x@, old(self)@.pubs, old(self)@.wits);
                let yy0 = lc_int(y@, old(self)@.pubs, old(self)@.wits);
                lemma_lc_int_stable(x@, pubs, old(self)@.wits, wits);
                lemma_lc_int_stable(y@, pubs, old(self)@.wits, wits);
                lemma_lc_int_singleton((t_var, 1int), pubs, wits);
                assert(wits.len() == old(self)@.wits.len() + 1);
                assert(t_var.index as int == wits.len() - 1);
                assert(wits.last() == fe_val(value.unwrap()));
                assert(wits.last() == ((xx0 % m) * (yy0 % m)) % m);
                assert(var_value(t_var, pubs, wits) == wits[t_var.index as int]);
                assert(cv.c =~= seq![(t_var, 1int)]);
                assert(lc_int(cv.c, pubs, wits) == 1 * var_value(t_var, pubs, wits));
                assert(lc_int(cv.c, pubs, wits) == ((xx0 % m) * (yy0 % m)) % m);
                lemma_mod_twice((xx0 % m) * (yy0 % m), m);
            }
        }
        Ok(t_lc)
    }

    /// Returns `on_false + bit · (on_true - on_false)` as a linear
    /// combination, recording the one product constraint this needs.
    /// `bit` must already be boolean-constrained for the selection to be
    /// meaningful: under a witnessed assignment a bit value of `0`
    /// selects `on_false` and a bit value of `1` selects `on_true`.
    #[verifier::rlimit(60)]
    pub fn conditional_select(
        &mut self,
        bit: &LinearCombination,
        on_true: &LinearCombination,
        on_false: &LinearCombination,
    ) -> (r: Result<LinearCombination, Error>)
        requires
            cs_wf(old(self)@),
            lc_wf(bit@, old(self)@.num_public, old(self)@.num_witness),
            lc_wf(on_true@, old(self)@.num_public, old(self)@.num_witness),
            lc_wf(on_false@, old(self)@.num_public, old(self)@.num_witness),
            old(self)@.num_public + old(self)@.num_witness + 2 <= usize::MAX,
        ensures
            cs_wf(final(self)@),
            final(self)@.mode == old(self)@.mode,
            final(self)@.finalized == old(self)@.finalized,
            final(self)@.num_public == old(self)@.num_public,
            final(self)@.pubs == old(self)@.pubs,
            r is Err ==> final(self)@ == old(self)@,
            r is Ok <==> !old(self)@.finalized,
            r is Err ==> r == Err::<LinearCombination, Error>(Error::AllocationAfterFinalize),
            r matches Ok(t) ==> {
                &&& lc_wf(t@, final(self)@.num_public, final(self)@.num_witness)
                &&& old(self)@.wits.len() <= final(self)@.wits.len()
                &&& (forall|i: int|
                    0 <= i < old(self)@.wits.len()
                        ==> old(self)@.wits[i] == final(self)@.wits[i])
                &&& final(self)@.num_witness == old(self)@.num_witness + 1
                &&& final(self)@.constraints.len() == old(self)@.constraints.len() + 1
                &&& forall|k: int|
                    0 <= k < old(self)@.constraints.len() ==> final(self)@.constraints[k] == old(
                        self,
                    )@.constraints[k]
                &&& (old(self)@.mode == Mode::Witnessed ==> constraint_satisfied(
                    final(self)@.constraints.last(),
                    final(self)@.pubs,
                    final(self)@.wits,
                ))
                &&& (old(self)@.mode == Mode::Witnessed ==> {
                    let bv = lc_int(bit@, old(self)@.pubs, old(self)@.wits) % field_modulus();
                    let tv = lc_int(on_true@, old(self)@.pubs, old(self)@.wits) % field_modulus();
                    let fv = lc_int(on_false@, old(self)@.pubs, old(self)@.wits)
                        % field_modulus();
                    let rv = lc_int(t@, final(self)@.pubs, final(self)@.wits) % field_modulus();
                    &&& (bv == 0 ==> rv == fv)
                    &&& (bv == 1 ==> rv == tv)
                })
            },
    {
        let diff = on_true.minus(on_false);
        proof {
            assert forall|i: int|
                0 <= i < diff@.len() implies var_wf(
                (#[trigger] diff@[i]).0,
                old(self)@.num_public,
                old(self)@.num_witness,
            ) by {
                if i < on_true@.len() {
                    assert(var_wf(on_true@[i].0, old(self)@.num_public, old(self)@.num_witness));
                } else {
                    assert(var_wf(
                        on_false@[i - on_true@.len()].0,
                        old(self)@.num_public,
                        old(self)@.num_witness,
                    ));
                }
            }
        }
        let scaled = match self.multiply(bit, &diff) {
            Ok(t) => t,
            Err(e) => {
                return Err(e);
            },
        };
        let result = on_false.plus(&scaled);
        proof {
            let m = field_modulus();
            lemma_field_modulus_bounds();
            if old(self)@.mode == Mode::Witnessed {
                let pubs = final(self)@.pubs;
                let wits = final(self)@.wits;
                let bv = lc_int(bit@, old(self)@.pubs, old(self)@.wits) % m;
                let tt = lc_int(on_true@, old(self)@.pubs, old(self)@.wits);
                let ff = lc_int(on_false@, old(self)@.pubs, old(self)@.wits);
                let negf = negated_terms(on_false@);
                lemma_lc_int_concat(on_true@, negf, old(self)@.pubs, old(self)@.wits);
                lemma_lc_int_neg(negf, on_false@, old(self)@.pubs, old(self)@.wits);
                let nf = lc_int(negf, old(self)@.pubs, old(self)@.wits);
                lemma_plus_neg_mod(tt, nf, ff, m);
                let dv = lc_int(diff@, old(self)@.pubs, old(self)@.wits) % m;
                assert(dv == (m + tt % m - ff % m) % m);
                // value of the scaled term under the extended assignment
                let sv = (bv * dv) % m;
                lemma_lc_int_stable(on_false@, pubs, old(self)@.wits, wits);
                lemma_lc_int_concat(on_false@, scaled@, pubs, wits);
                lemma_lc_int_singleton(
                    (Variable { kind: VarKind::Witness, index: old(self).num_witness }, 1int),
                    pubs,
                    wits,
                );
                assert(wits.len() == old(self)@.wits.len() + 1);
                assert(wits.last() == sv);
                assert(scaled@ =~= seq![
                    (Variable { kind: VarKind::Witness, index: old(self).num_witness }, 1int),
                ]);
                assert(var_value(
                    Variable { kind: VarKind::Witness, index: old(self).num_witness },
                    pubs,
                    wits,
                ) == wits.last());
                assert(lc_int(scaled@, pubs, wits) == 1 * var_value(
                    Variable { kind: VarKind::Witness, index: old(self).num_witness },
                    pubs,
                    wits,
                ));
                assert(lc_int(scaled@, pubs, wits) == sv);
                assert(lc_int(result@, pubs, wits) == ff + sv);
                lemma_mod_division_less_than_divisor(tt, m);
                lemma_mod_division_less_than_divisor(ff, m);
                if bv == 0 {
                    assert(bv * dv == 0) by (nonlinear_arith)
                        requires
                            bv == 0,
                    ;
                    lemma_small_mod(0nat, m as nat);
                    vstd::arithmetic::div_mod::lemma_add_mod_noop_right(ff, 0, m);
                    assert((ff + sv) % m == ff % m);
                }
                if bv == 1 {
                    assert(bv * dv == dv) by (nonlinear_arith)
                        requires
                            bv == 1,
                    ;
                    lemma_mod_division_less_than_divisor(m + tt % m - ff % m, m);
                    lemma_mod_twice(m + tt % m - ff % m, m);
                    assert(sv == (m + tt % m - ff % m) % m);
                    vstd::arithmetic::div_mod::lemma_add_mod_noop_right(
                        ff,
                        m + tt % m - ff % m,
                        m,
                    );
                    assert((ff + sv) % m == (ff + (m + tt % m - ff % m)) % m);
                    vstd::arithmetic::div_mod::lemma_fundamental_div_mod(ff, m);
                    let q = ff / m;
                    assert(ff + (m + tt % m - ff % m) == m * (q + 1) + tt % m)
                        by (nonlinear_arith)
                        requires
                            ff == m * q + ff % m,
                    ;
                    vstd::arithmetic::div_mod::lemma_mod_multiples_vanish(q + 1, tt % m, m);
                    lemma_mod_twice(tt, m);
                    assert((ff + sv) % m == tt % m);
                }
            }
        }
        Ok(result)
    }
}


/// The reduced evaluation of each combination in a list of exponent
/// bits, most significant bit last.
pub open spec fn bit_values(bits: Seq<LinearCombination>, pubs: Seq<int>, wits: Seq<int>) -> Seq<
    int,
> {
    Seq::new(bits.len(), |i: int| lc_int(bits[i]@, pubs, wits) % field_modulus())
}

/// Square-and-multiply over a little-endian bit sequence: the reduced
/// value that repeated squaring computes for `base^exponent` when the
/// bits spell the exponent.
pub open spec fn square_and_multiply(b: int, bits: Seq<int>, m: int) -> int
    decreases bits.len(),
{
    if bits.len() == 0 {
        1int % m
    } else {
        let h = square_and_multiply(b, bits.subrange(1, bits.len() as int), m);
        let sq = (h * h) % m;
        if bits[0] == 1 {
            (sq * b) % m
        } else {
            sq
        }
    }
}

/// The exponent that a little-endian bit sequence spells.
pub open spec fn bits_exponent(bits: Seq<int>) -> int
    decreases bits.len(),
{
    if bits.len() == 0 {
        0
    } else {
        bits[0] + 2 * bits_exponent(bits.subrange(1, bits.len() as int))
    }
}

/// The exponent spelled by boolean bits is nonnegative.
pub proof fn lemma_bits_exponent_nonneg(bits: Seq<int>)
    requires
        forall|i: int| 0 <= i < bits.len() ==> #[trigger] bits[i] == 0 || bits[i] == 1,
    ensures
        0 <= bits_exponent(bits),
    decreases bits.len(),
{
    if bits.len() > 0 {
        assert(forall|i: int|
            0 <= i < bits.subrange(1, bits.len() as int).len() ==> #[trigger] bits.subrange(
                1,
                bits.len() as int,
            )[i] == 0 || bits.subrange(1, bits.len() as int)[i] == 1);
        lemma_bits_exponent_nonneg(bits.subrange(1, bits.len() as int));
    }
}

/// Law: square-and-multiply computes true exponentiation. For boolean
/// bits, the value the gadget chain carries is `base` raised to the
/// exponent the bits spell, reduced by the modulus.
pub proof fn lemma_square_and_multiply_is_pow(b: int, bits: Seq<int>, m: int)
    requires
        m > 1,
        forall|i: int| 0 <= i < bits.len() ==> #[trigger] bits[i] == 0 || bits[i] == 1,
    ensures
        square_and_multiply(b, bits, m) == vstd::arithmetic::power::pow(
            b,
            bits_exponent(bits) as nat,
        ) % m,
    decreases bits.len(),
{
    lemma_bits_exponent_nonneg(bits);
    if bits.len() == 0 {
        vstd::arithmetic::power::lemma_pow0(b);
    } else {
        let rest = bits.subrange(1, bits.len() as int);
        assert(forall|i: int|
            0 <= i < rest.len() ==> #[trigger] rest[i] == 0 || rest[i] == 1);
        lemma_bits_exponent_nonneg(rest);
        lemma_square_and_multiply_is_pow(b, rest, m);
        let vh = bits_exponent(rest) as nat;
        let h = square_and_multiply(b, rest, m);
        let p = vstd::arithmetic::power::pow(b, vh);
        // h * h reduces to b^(2*vh)
        vstd::arithmetic::div_mod::lemma_mul_mod_noop(p, p, m);
        vstd::arithmetic::power::lemma_pow_adds(b, vh, vh);
        assert((h * h) % m == vstd::arithmetic::power::pow(b, (vh + vh) as nat) % m);
        if bits[0] == 1 {
            let sq = (h * h) % m;
            vstd::arithmetic::div_mod::lemma_mul_mod_noop_left(
                vstd::arithmetic::power::pow(b, (vh + vh) as nat),
                b,
                m,
            );
            vstd::arithmetic::div_mod::lemma_mul_mod_noop_left(h * h, b, m);
            vstd::arithmetic::power::lemma_pow1(b);
            vstd::arithmetic::power::lemma_pow_adds(b, (vh + vh) as nat, 1nat);
            assert(bits_exponent(bits) == 1 + 2 * vh);
            assert((sq * b) % m == vstd::arithmetic::power::pow(b, (vh + vh + 1) as nat) % m);
        } else {
            assert(bits_exponent(bits) == 2 * vh);
        }
    }
}

impl ConstraintSystem {
    /// Exponentiation by squaring over a fixed, public bit length: the
    /// returned combination carries `base^exponent` where the exponent is
    /// spelled by `exponent_bits`, little-endian. Each bit must already
    /// be boolean-constrained; three product constraints are recorded per
    /// bit.
    #[verifier::rlimit(100)]
    #[verifier::spinoff_prover]
    pub fn exponentiate(
        &mut self,
        base: &LinearCombination,
        exponent_bits: &Vec<LinearCombination>,
    ) -> (r: Result<LinearCombination, Error>)
        requires
            cs_wf(old(self)@),
            lc_wf(base@, old(self)@.num_public, old(self)@.num_witness),
            forall|i: int|
                0 <= i < exponent_bits@.len() ==> lc_wf(
                    (#[trigger] exponent_bits@[i])@,
                    old(self)@.num_public,
                    old(self)@.num_witness,
                ),
            old(self)@.num_public + old(self)@.num_witness + 3 * exponent_bits@.len() + 2
                <= usize::MAX,
            old(self)@.mode == Mode::Witnessed ==> forall|i: int|
                0 <= i < exponent_bits@.len() ==> (#[trigger] bit_values(
                    exponent_bits@,
                    old(self)@.pubs,
                    old(self)@.wits,
                )[i] == 0 || bit_values(exponent_bits@, old(self)@.pubs, old(self)@.wits)[i]
                    == 1),
        ensures
            cs_wf(final(self)@),
            final(self)@.mode == old(self)@.mode,
            final(self)@.finalized == old(self)@.finalized,
            final(self)@.num_public == old(self)@.num_public,
            final(self)@.pubs == old(self)@.pubs,
            r is Err ==> r == Err::<LinearCombination, Error>(Error::AllocationAfterFinalize),
            r is Ok <==> !old(self)@.finalized,
            r matches Ok(t) ==> {
                &&& lc_wf(t@, final(self)@.num_public, final(self)@.num_witness)
                &&& final(self)@.num_witness == old(self)@.num_witness + 3 * exponent_bits@.len()
                &&& final(self)@.constraints.len() == old(self)@.constraints.len() + 3
                    * exponent_bits@.len()
                &&& forall|k: int|
                    0 <= k < old(self)@.constraints.len() ==> final(self)@.constraints[k] == old(
                        self,
                    )@.constraints[k]
                &&& old(self)@.wits.len() <= final(self)@.wits.len()
                &&& (forall|k: int|
                    0 <= k < old(self)@.wits.len()
                        ==> old(self)@.wits[k] == final(self)@.wits[k])
                &&& (old(self)@.mode == Mode::Witnessed ==> forall|k: int|
                    old(self)@.constraints.len() <= k < final(self)@.constraints.len()
                        ==> constraint_satisfied(
                        #[trigger] final(self)@.constraints[k],
                        final(self)@.pubs,
                        final(self)@.wits,
                    ))
                &&& (old(self)@.mode == Mode::Witnessed ==> lc_int(
                    t@,
                    final(self)@.pubs,
                    final(self)@.wits,
                ) % field_modulus() == square_and_multiply(
                    lc_int(base@, old(self)@.pubs, old(self)@.wits) % field_modulus(),
                    bit_values(exponent_bits@, old(self)@.pubs, old(self)@.wits),
                    field_modulus(),
                ))
            },
    {
        if self.finalized {
            return Err(Error::AllocationAfterFinalize);
        }
        let ghost m = field_modulus();
        let ghost pubs0 = old(self)@.pubs;
        let ghost wits0 = old(self)@.wits;
        let ghost b0 = lc_int(base@, pubs0, wits0) % m;
        let ghost bvs = bit_values(exponent_bits@, pubs0, wits0);
        let one_c = LinearCombination::from_variable(Variable::constant_one());
        let mut acc = one_c;
        let mut j: usize = exponent_bits.len();
        proof {
            lemma_field_modulus_bounds();
            assert(acc@ =~= seq![(Variable { kind: VarKind::Constant, index: 0 }, 1int)]);
            if old(self)@.mode == Mode::Witnessed {
                lemma_lc_int_singleton(
                    (Variable { kind: VarKind::Constant, index: 0 }, 1int),
                    pubs0,
                    self@.wits,
                );
                assert(exponent_bits@.subrange(
                    exponent_bits@.len() as int,
                    exponent_bits@.len() as int,
                ) =~= Seq::<LinearCombination>::empty());
                lemma_small_mod(1nat, m as nat);
            }
        }
        while j > 0
            invariant
                m == field_modulus(),
                pubs0 == old(self)@.pubs,
                wits0 == old(self)@.wits,
                b0 == lc_int(base@, pubs0, wits0) % m,
                bvs == bit_values(exponent_bits@, pubs0, wits0),
                bvs.len() == exponent_bits@.len(),
                cs_wf(old(self)@),
                cs_wf(self@),
                self@.mode == old(self)@.mode,
                self@.finalized == old(self)@.finalized,
                !self@.finalized,
                self@.num_public == old(self)@.num_public,
                self@.pubs == old(self)@.pubs,
                j <= exponent_bits@.len(),
                self@.num_witness == old(self)@.num_witness + 3 * (exponent_bits@.len() - j),
                self@.constraints.len() == old(self)@.constraints.len() + 3 * (
                exponent_bits@.len() - j),
                forall|k: int|
                    0 <= k < old(self)@.constraints.len() ==> self@.constraints[k] == old(
                        self,
                    )@.constraints[k],
                old(self)@.num_public + old(self)@.num_witness + 3 * exponent_bits@.len() + 2
                    <= usize::MAX,
                lc_wf(acc@, self@.num_public, self@.num_witness),
                lc_wf(base@, old(self)@.num_public, old(self)@.num_witness),
                forall|i: int|
                    0 <= i < exponent_bits@.len() ==> lc_wf(
                        (#[trigger] exponent_bits@[i])@,
                        old(self)@.num_public,
                        old(self)@.num_witness,
                    ),
                old(self)@.wits.len() <= self@.wits.len(),
                forall|i: int| 0 <= i < old(self)@.wits.len() ==> old(self)@.wits[i] == self@.wits[i],
                self@.mode == Mode::Witnessed ==> forall|k: int|
                    old(self)@.constraints.len() <= k < self@.constraints.len()
                        ==> constraint_satisfied(
                        #[trigger] self@.constraints[k],
                        self@.pubs,
                        self@.wits,
                    ),
                self@.mode == Mode::Witnessed ==> forall|i: int|
                    0 <= i < exponent_bits@.len() ==> (#[trigger] bvs[i] == 0 || bvs[i] == 1),
                self@.mode == Mode::Witnessed ==> lc_int(acc@, self@.pubs, self@.wits) % m
                    == square_and_multiply(
                    b0,
                    bvs.subrange(j as int, bvs.len() as int),
                    m,
                ),
            decreases j,
        {
            j = j - 1;
            let ghost wits_a = self@.wits;
            let sq = match self.multiply(&acc, &acc) {
                Ok(t) => t,
                Err(e) => {
                    proof {
                        assert(false);
                    }
                    return Err(e);
                },
            };
            proof {
                if self@.mode == Mode::Witnessed {
                    lemma_field_modulus_bounds();
                    let h = square_and_multiply(
                        b0,
                        bvs.subrange(j + 1, bvs.len() as int),
                        m,
                    );
                    let av = lc_int(acc@, self@.pubs, wits_a);
                    lemma_mod_twice(av, m);
                    let tv = Variable {
                        kind: VarKind::Witness,
                        index: (self@.num_witness - 1) as usize,
                    };
                    lemma_fresh_witness_value(sq@, tv, self@.pubs, self@.wits);
                    assert(self@.wits.last() == ((av % m) * (av % m)) % m);
                    assert(lc_int(sq@, self@.pubs, self@.wits) == (h * h) % m);
                }
            }
            let ghost wits_b = self@.wits;
            let cand = match self.multiply(&sq, base) {
                Ok(t) => t,
                Err(e) => {
                    proof {
                        assert(false);
                    }
                    return Err(e);
                },
            };
            proof {
                assert forall|i: int|
                    0 <= i < exponent_bits@.len() implies lc_wf(
                    (#[trigger] exponent_bits@[i])@,
                    self@.num_public,
                    self@.num_witness,
                ) by {
                    lemma_lc_wf_mono(
                        exponent_bits@[i]@,
                        old(self)@.num_public,
                        old(self)@.num_witness,
                        self@.num_public,
                        self@.num_witness,
                    );
                }
            }
            let ghost wits_c = self@.wits;
            let sel = match self.conditional_select(&exponent_bits[j], &cand, &sq) {
                Ok(t) => t,
                Err(e) => {
                    proof {
                        assert(false);
                    }
                    return Err(e);
                },
            };
            proof {
                if self@.mode == Mode::Witnessed {
                    lemma_field_modulus_bounds();
                    let h = square_and_multiply(
                        b0,
                        bvs.subrange(j + 1, bvs.len() as int),
                        m,
                    );
                    let sqv = (h * h) % m;
                    lemma_mod_twice(h * h, m);
                    // the earlier combinations keep their values as fresh
                    // witnesses are appended
                    lemma_lc_int_stable(base@, self@.pubs, wits0, wits_b);
                    lemma_lc_int_stable(sq@, self@.pubs, wits_b, wits_c);
                    lemma_lc_int_stable(exponent_bits@[j as int]@, self@.pubs, wits0, wits_c);
                    assert(lc_int(sq@, self@.pubs, wits_c) == sqv);
                    let bv = lc_int(exponent_bits@[j as int]@, self@.pubs, wits_c) % m;
                    assert(bv == bvs[j as int]);
                    // value of the product witness recorded for `cand`
                    let cv = Variable {
                        kind: VarKind::Witness,
                        index: (wits_c.len() - 1) as usize,
                    };
                    lemma_fresh_witness_value(cand@, cv, self@.pubs, wits_c);
                    assert(wits_c.last() == ((lc_int(sq@, self@.pubs, wits_b) % m) * (lc_int(
                        base@,
                        self@.pubs,
                        wits_b,
                    ) % m)) % m);
                    assert(lc_int(sq@, self@.pubs, wits_b) % m == sqv);
                    assert(lc_int(base@, self@.pubs, wits_b) % m == b0);
                    assert(lc_int(cand@, self@.pubs, wits_c) == (sqv * b0) % m);
                    lemma_mod_twice(sqv * b0, m);
                    assert(bvs.subrange(j as int, bvs.len() as int).subrange(
                        1,
                        bvs.len() - j,
                    ) =~= bvs.subrange(j + 1, bvs.len() as int));
                    assert(bvs.subrange(j as int, bvs.len() as int)[0] == bvs[j as int]);
                    if bv == 1 {
                        assert(lc_int(sel@, self@.pubs, self@.wits) % m == lc_int(
                            cand@,
                            self@.pubs,
                            wits_c,
                        ) % m);
                        assert(lc_int(sel@, self@.pubs, self@.wits) % m == (sqv * b0) % m);
                    } else {
                        assert(lc_int(sel@, self@.pubs, self@.wits) % m == lc_int(
                            sq@,
                            self@.pubs,
                            wits_c,
                        ) % m);
                        assert(lc_int(sel@, self@.pubs, self@.wits) % m == sqv % m);
                    }
                    assert(lc_int(sel@, self@.pubs, self@.wits) % m == square_and_multiply(
                        b0,
                        bvs.subrange(j as int, bvs.len() as int),
                        m,
                    ));
                }
            }
            proof {
                if self@.mode == Mode::Witnessed {
                    assert forall|k: int|
                        old(self)@.constraints.len() <= k < self@.constraints.len()
                            implies constraint_satisfied(
                        #[trigger] self@.constraints[k],
                        self@.pubs,
                        self@.wits,
                    ) by {
                        if k < self@.constraints.len() - 3 {
                            assert(constraint_wf(
                                self@.constraints[k],
                                self@.num_public,
                                wits_a.len() as int,
                            ));
                            lemma_constraint_satisfied_stable(
                                self@.constraints[k],
                                self@.pubs,
                                wits_a,
                                self@.wits,
                            );
                        } else if k == self@.constraints.len() - 3 {
                            assert(constraint_wf(
                                self@.constraints[k],
                                self@.num_public,
                                wits_b.len() as int,
                            ));
                            lemma_constraint_satisfied_stable(
                                self@.constraints[k],
                                self@.pubs,
                                wits_b,
                                self@.wits,
                            );
                        } else if k == self@.constraints.len() - 2 {
                            assert(constraint_wf(
                                self@.constraints[k],
                                self@.num_public,
                                wits_c.len() as int,
                            ));
                            lemma_constraint_satisfied_stable(
                                self@.constraints[k],
                                self@.pubs,
                                wits_c,
                                self@.wits,
                            );
                        }
                    }
                }
            }
            acc = sel;
        }
        proof {
            if self@.mode == Mode::Witnessed {
                assert(bvs.subrange(0, bvs.len() as int) =~= bvs);
            }
        }
        Ok(acc)
    }
}

/// Combination well-formedness is preserved when the allocation counts
/// grow.
pub proof fn lemma_lc_wf_mono(
    terms: Seq<(Variable, int)>,
    np1: int,
    nw1: int,
    np2: int,
    nw2: int,
)
    requires
        lc_wf(terms, np1, nw1),
        np1 <= np2,
        nw1 <= nw2,
    ensures
        lc_wf(terms, np2, nw2),
{
    assert forall|i: int| 0 <= i < terms.len() implies var_wf(
        #[trigger] terms[i].0,
        np2,
        nw2,
    ) by {
        assert(var_wf(terms[i].0, np1, nw1));
    }
}


/// The value of the low `k` bits of `v`: the weighted sum of its binary
/// digits below position `k`.
pub open spec fn low_bits_sum(v: int, k: nat) -> int
    decreases k,
{
    if k == 0 {
        0
    } else {
        low_bits_sum(v, (k - 1) as nat) + (if (v / (pow2((k - 1) as nat) as int)) % 2 == 1 {
            pow2((k - 1) as nat) as int
        } else {
            0
        })
    }
}

/// Law: the low `k` bits of a nonnegative integer sum to its remainder
/// modulo `2^k`; in particular they sum to the integer itself exactly
/// when it is below `2^k`. This is what a satisfied range constraint
/// certifies.
pub proof fn lemma_low_bits_sum_is_mod(v: int, k: nat)
    requires
        0 <= v,
    ensures
        low_bits_sum(v, k) == v % (pow2(k) as int),
        (low_bits_sum(v, k) == v) <==> (v < pow2(k) as int),
    decreases k,
{
    vstd::arithmetic::power2::lemma_pow2_pos(k);
    if k == 0 {
        vstd::arithmetic::power2::lemma2_to64();
        vstd::arithmetic::div_mod::lemma_fundamental_div_mod(v, 1);
        lemma_mod_division_less_than_divisor(v, 1);
    } else {
        lemma_low_bits_sum_is_mod(v, (k - 1) as nat);
        vstd::arithmetic::power2::lemma_pow2_pos((k - 1) as nat);
        let y = pow2((k - 1) as nat) as int;
        vstd::arithmetic::div_mod::lemma_breakdown(v, y, 2);
        vstd::arithmetic::power2::lemma_pow2_adds((k - 1) as nat, 1);
        vstd::arithmetic::power2::lemma2_to64();
        assert(y * 2 == pow2(k) as int);
        lemma_mod_division_less_than_divisor(v / y, 2);
        assert(v % (pow2(k) as int) == y * ((v / y) % 2) + v % y);
        if (v / y) % 2 == 1 {
            assert(y * ((v / y) % 2) == y) by (nonlinear_arith)
                requires
                    (v / y) % 2 == 1,
            ;
        } else {
            assert((v / y) % 2 == 0);
            assert(y * ((v / y) % 2) == 0) by (nonlinear_arith)
                requires
                    (v / y) % 2 == 0,
            ;
        }
    }
    lemma_mod_division_less_than_divisor(v, pow2(k) as int);
    if v < pow2(k) as int {
        lemma_small_mod(v as nat, pow2(k) as nat);
    } else {
        vstd::arithmetic::div_mod::lemma_mod_multiples_vanish(1, v - pow2(k) as int, pow2(k) as int);
    }
}

impl ConstraintSystem {
    /// Decomposes `x` into `bit_length` boolean-constrained bits and
    /// records that their weighted sum (powers of two) equals `x`; the
    /// cost is linear in `bit_length`. Under a witnessed assignment the
    /// recorded sum constraint holds exactly when the value of `x` fits
    /// in `bit_length` bits.
    #[verifier::rlimit(100)]
    #[verifier::spinoff_prover]
    pub fn range_check(&mut self, x: &LinearCombination, bit_length: usize) -> (r: Result<
        (),
        Error,
    >)
        requires
            cs_wf(old(self)@),
            lc_wf(x@, old(self)@.num_public, old(self)@.num_witness),
            bit_length <= 254,
            old(self)@.num_public + old(self)@.num_witness + bit_length + 2 <= usize::MAX,
        ensures
            cs_wf(final(self)@),
            final(self)@.mode == old(self)@.mode,
            final(self)@.finalized == old(self)@.finalized,
            final(self)@.num_public == old(self)@.num_public,
            final(self)@.pubs == old(self)@.pubs,
            r is Err ==> final(self)@ == old(self)@ && r == Err::<(), Error>(
                Error::AllocationAfterFinalize,
            ),
            r is Ok <==> !old(self)@.finalized,
            r is Ok ==> {
                &&& final(self)@.num_witness == old(self)@.num_witness + bit_length
                &&& old(self)@.wits.len() <= final(self)@.wits.len()
                &&& (forall|k: int|
                    0 <= k < old(self)@.wits.len()
                        ==> old(self)@.wits[k] == final(self)@.wits[k])
                &&& final(self)@.constraints.len() == old(self)@.constraints.len() + bit_length
                    + 1
                &&& forall|k: int|
                    0 <= k < old(self)@.constraints.len() ==> final(self)@.constraints[k] == old(
                        self,
                    )@.constraints[k]
                &&& (old(self)@.mode == Mode::Witnessed ==> forall|k: int|
                    old(self)@.constraints.len() <= k < final(self)@.constraints.len() - 1
                        ==> constraint_satisfied(
                        #[trigger] final(self)@.constraints[k],
                        final(self)@.pubs,
                        final(self)@.wits,
                    ))
                &&& (old(self)@.mode == Mode::Witnessed ==> (constraint_satisfied(
                    final(self)@.constraints.last(),
                    final(self)@.pubs,
                    final(self)@.wits,
                ) <==> {
                    let xm = lc_int(x@, old(self)@.pubs, old(self)@.wits) % field_modulus();
                    xm == low_bits_sum(xm, bit_length as nat)
                }))
            },
    {
        if self.finalized {
            return Err(Error::AllocationAfterFinalize);
        }
        let ghost m = field_modulus();
        let ghost pubs0 = old(self)@.pubs;
        let ghost wits0 = old(self)@.wits;
        let ghost xm = lc_int(x@, pubs0, wits0) % m;
        let bits: Vec<bool> = match self.mode {
            Mode::Witnessed => {
                let xv = match self.evaluate(x) {
                    Ok(v) => v,
                    Err(e) => {
                        proof {
                            assert(false);
                        }
                        return Err(e);
                    },
                };
                fe_bits(&xv)
            },
            Mode::StructureOnly => Vec::new(),
        };
        let mut sum_lc = LinearCombination::new();
        let mut coeff = fe_one();
        let mut i: usize = 0;
        proof {
            lemma_field_modulus_bounds();
            vstd::arithmetic::power2::lemma2_to64();
        }
        while i < bit_length
            invariant
                m == field_modulus(),
                pubs0 == old(self)@.pubs,
                wits0 == old(self)@.wits,
                xm == lc_int(x@, pubs0, wits0) % m,
                bit_length <= 254,
                i <= bit_length,
                cs_wf(old(self)@),
                cs_wf(self@),
                self@.mode == old(self)@.mode,
                self@.finalized == old(self)@.finalized,
                !self@.finalized,
                self@.num_public == old(self)@.num_public,
                self@.pubs == old(self)@.pubs,
                self@.num_witness == old(self)@.num_witness + i,
                self@.constraints.len() == old(self)@.constraints.len() + i,
                forall|k: int|
                    0 <= k < old(self)@.constraints.len() ==> self@.constraints[k] == old(
                        self,
                    )@.constraints[k],
                old(self)@.num_public + old(self)@.num_witness + bit_length + 2 <= usize::MAX,
                lc_wf(x@, old(self)@.num_public, old(self)@.num_witness),
                old(self)@.wits.len() <= self@.wits.len(),
                forall|k: int| 0 <= k < old(self)@.wits.len() ==> old(self)@.wits[k] == self@.wits[k],
                sum_lc@.len() == i,
                lc_wf(sum_lc@, self@.num_public, self@.num_witness),
                fe_val(coeff) == pow2(i as nat) as int,
                self@.mode == Mode::Witnessed ==> bits@.len() == 256,
                self@.mode == Mode::Witnessed ==> forall|k: int|
                    0 <= k < 256 ==> bits@[k] == (((xm / pow2(k as nat) as int) % 2) == 1),
                self@.mode == Mode::Witnessed ==> lc_int(sum_lc@, self@.pubs, self@.wits)
                    == low_bits_sum(xm, i as nat),
                self@.mode == Mode::Witnessed ==> forall|k: int|
                    old(self)@.constraints.len() <= k < self@.constraints.len()
                        ==> constraint_satisfied(
                        #[trigger] self@.constraints[k],
                        self@.pubs,
                        self@.wits,
                    ),
            decreases bit_length - i,
        {
            proof {
                lemma_field_modulus_bounds();
                vstd::arithmetic::power2::lemma_pow2_strictly_increases(
                    (i + 1) as nat,
                    255nat,
                );
                if i + 1 < 254 {
                    vstd::arithmetic::power2::lemma_pow2_strictly_increases(
                        (i + 1) as nat,
                        254nat,
                    );
                }
                vstd::arithmetic::power2::lemma_pow2_adds(i as nat, 1);
                vstd::arithmetic::power2::lemma2_to64();
            }
            let value: Option<FieldElement> = match self.mode {
                Mode::Witnessed => {
                    if bits[i] {
                        Some(crate::field::fe_from_u64(1))
                    } else {
                        Some(crate::field::fe_from_u64(0))
                    }
                },
                Mode::StructureOnly => None,
            };
            let ghost wits_a = self@.wits;
            let bv = match self.alloc_witness(value) {
                Ok(v) => v,
                Err(e) => {
                    proof {
                        assert(false);
                    }
                    return Err(e);
                },
            };
            let bit_lc = LinearCombination::from_variable(bv);
            self.enforce_boolean(&bit_lc);
            proof {
                if self@.mode == Mode::Witnessed {
                    lemma_lc_int_stable(sum_lc@, self@.pubs, wits_a, self@.wits);
                    // earlier booleanity constraints keep holding under the
                    // extended assignment
                    assert forall|k: int|
                        old(self)@.constraints.len() <= k < self@.constraints.len()
                            - 1 implies constraint_satisfied(
                        #[trigger] self@.constraints[k],
                        self@.pubs,
                        self@.wits,
                    ) by {
                        assert(constraint_wf(
                            self@.constraints[k],
                            self@.num_public,
                            wits_a.len() as int,
                        ));
                        lemma_constraint_satisfied_stable(
                            self@.constraints[k],
                            self@.pubs,
                            wits_a,
                            self@.wits,
                        );
                    }
                    // the fresh bit is 0 or 1, so its booleanity constraint
                    // holds as well
                    let cvn = self@.constraints.last();
                    lemma_field_modulus_bounds();
                    lemma_fresh_witness_value(bit_lc@, bv, self@.pubs, self@.wits);
                    lemma_small_mod(self@.wits.last() as nat, field_modulus() as nat);
                    assert(lc_int(bit_lc@, self@.pubs, self@.wits) % field_modulus() == 0
                        || lc_int(bit_lc@, self@.pubs, self@.wits) % field_modulus() == 1);
                    assert(constraint_satisfied(cvn, self@.pubs, self@.wits));
                }
                lemma_lc_wf_mono(
                    sum_lc@,
                    self@.num_public,
                    self@.num_witness - 1,
                    self@.num_public,
                    self@.num_witness,
                );
            }
            let c = crate::field::fe_clone(&coeff);
            let ghost prev = sum_lc@;
            sum_lc.push_term(bv, c);
            proof {
                if self@.mode == Mode::Witnessed {
                    crate::lc::lemma_lc_int_push(prev, (bv, fe_val(c)), self@.pubs, self@.wits);
                    assert(var_value(bv, self@.pubs, self@.wits) == self@.wits.last());
                    assert(fe_val(c) == pow2(i as nat) as int);
                    if bits[i as int] {
                        assert(self@.wits.last() == 1);
                        assert(fe_val(c) * self@.wits.last() == fe_val(c)) by (nonlinear_arith)
                            requires
                                self@.wits.last() == 1,
                        ;
                    } else {
                        assert(self@.wits.last() == 0);
                        assert(fe_val(c) * self@.wits.last() == 0) by (nonlinear_arith)
                            requires
                                self@.wits.last() == 0,
                        ;
                    }
                    assert(low_bits_sum(xm, (i + 1) as nat) == low_bits_sum(xm, i as nat) + (
                    if (xm / (pow2(i as nat) as int)) % 2 == 1 {
                        pow2(i as nat) as int
                    } else {
                        0int
                    }));
                    assert(lc_int(sum_lc@, self@.pubs, self@.wits) == low_bits_sum(
                        xm,
                        (i + 1) as nat,
                    ));
                }
            }
            coeff = crate::field::fe_add(&coeff, &coeff);
            proof {
                assert(pow2((i + 1) as nat) == 2 * pow2(i as nat));
                if i + 1 < 254 {
                    vstd::arithmetic::power2::lemma_pow2_strictly_increases(
                        (i + 1) as nat,
                        254nat,
                    );
                }
                lemma_small_mod((2 * pow2(i as nat)) as nat, m as nat);
            }
            i += 1;
        }
        self.enforce_equal(&sum_lc, x);
        proof {
            if self@.mode == Mode::Witnessed {
                lemma_field_modulus_bounds();
                let pubs = final(self)@.pubs;
                let wits = final(self)@.wits;
                lemma_lc_int_stable(x@, pubs, wits0, wits);
                assert(lc_int(x@, pubs, wits) % m == xm);
                assert(lc_int(sum_lc@, pubs, wits) == low_bits_sum(xm, bit_length as nat));
                lemma_mod_division_less_than_divisor(lc_int(x@, pubs0, wits0), m);
                lemma_low_bits_sum_is_mod(xm, bit_length as nat);
                vstd::arithmetic::power2::lemma_pow2_pos(bit_length as nat);
                lemma_mod_division_less_than_divisor(xm, pow2(bit_length as nat) as int);
                if bit_length < 254 {
                    vstd::arithmetic::power2::lemma_pow2_strictly_increases(
                        bit_length as nat,
                        254nat,
                    );
                }
                assert(low_bits_sum(xm, bit_length as nat) < m);
                lemma_small_mod(low_bits_sum(xm, bit_length as nat) as nat, m as nat);
                lemma_mod_twice(lc_int(x@, pubs0, wits0), m);
            }
        }
        Ok(())
    }
}


impl ConstraintSystem {
    /// Applies the not-equal gadget to every unordered pair in the group.
    /// The cost is quadratic in the group size, which is acceptable only
    /// for small, fixed-size groups (such as the nine cells of a Sudoku
    /// row); this gadget does not scale to large groups. Under a
    /// witnessed assignment, success means every two members evaluate to
    /// different field values, and a `DivisionByZero` failure names an
    /// equal pair.
    #[verifier::rlimit(100)]
    #[verifier::spinoff_prover]
    pub fn pairwise_distinct(&mut self, group: &Vec<LinearCombination>) -> (r: Result<(), Error>)
        requires
            cs_wf(old(self)@),
            forall|k: int|
                0 <= k < group@.len() ==> lc_wf(
                    (#[trigger] group@[k])@,
                    old(self)@.num_public,
                    old(self)@.num_witness,
                ),
            old(self)@.num_public + old(self)@.num_witness + group@.len() * group@.len() + 2
                <= usize::MAX,
        ensures
            cs_wf(final(self)@),
            final(self)@.mode == old(self)@.mode,
            final(self)@.finalized == old(self)@.finalized,
            final(self)@.num_public == old(self)@.num_public,
            final(self)@.pubs == old(self)@.pubs,
            old(self)@.num_witness <= final(self)@.num_witness,
            final(self)@.num_witness <= old(self)@.num_witness + group@.len() * group@.len(),
            old(self)@.wits.len() <= final(self)@.wits.len(),
            forall|k: int| 0 <= k < old(self)@.wits.len() ==> old(self)@.wits[k] == final(self)@.wits[k],
            forall|k: int|
                0 <= k < old(self)@.constraints.len() ==> final(self)@.constraints[k] == old(
                    self,
                )@.constraints[k],
            r is Ok ==> 2 * (final(self)@.num_witness - old(self)@.num_witness) == group@.len() * (
            group@.len() - 1),
            r is Ok ==> 2 * (final(self)@.constraints.len() - old(self)@.constraints.len())
                == group@.len() * (group@.len() - 1),
            (r == Err::<(), Error>(Error::AllocationAfterFinalize)) <==> old(self)@.finalized,
            r is Err ==> (r == Err::<(), Error>(Error::AllocationAfterFinalize) || r == Err::<
                (),
                Error,
            >(Error::DivisionByZero)),
            r is Ok <==> (!old(self)@.finalized && !(old(self)@.mode == Mode::Witnessed
                && exists|a: int, b: int|
                0 <= a < b < group@.len() && #[trigger] lc_int(
                    group@[a]@,
                    old(self)@.pubs,
                    old(self)@.wits,
                ) % field_modulus() == #[trigger] lc_int(
                    group@[b]@,
                    old(self)@.pubs,
                    old(self)@.wits,
                ) % field_modulus())),
            old(self)@.mode == Mode::Witnessed ==> (r == Err::<(), Error>(Error::DivisionByZero)
                ==> exists|a: int, b: int|
                0 <= a < b < group@.len() && #[trigger] lc_int(
                    group@[a]@,
                    old(self)@.pubs,
                    old(self)@.wits,
                ) % field_modulus() == #[trigger] lc_int(
                    group@[b]@,
                    old(self)@.pubs,
                    old(self)@.wits,
                ) % field_modulus()),
            r is Ok && old(self)@.mode == Mode::Witnessed ==> forall|a: int, b: int|
                0 <= a < b < group@.len() ==> #[trigger] lc_int(
                    group@[a]@,
                    old(self)@.pubs,
                    old(self)@.wits,
                ) % field_modulus() != #[trigger] lc_int(
                    group@[b]@,
                    old(self)@.pubs,
                    old(self)@.wits,
                ) % field_modulus(),
    {
        if self.finalized {
            return Err(Error::AllocationAfterFinalize);
        }
        let ghost m = field_modulus();
        let ghost pubs0 = old(self)@.pubs;
        let ghost wits0 = old(self)@.wits;
        let len = group.len();
        let mut i: usize = 0;
        let ghost mut processed: int = 0;
        while i < len
            invariant
                m == field_modulus(),
                pubs0 == old(self)@.pubs,
                wits0 == old(self)@.wits,
                len == group@.len(),
                i <= len,
                cs_wf(old(self)@),
                cs_wf(self@),
                self@.mode == old(self)@.mode,
                self@.finalized == old(self)@.finalized,
                !self@.finalized,
                self@.num_public == old(self)@.num_public,
                self@.pubs == old(self)@.pubs,
                0 <= processed,
                processed <= i * len,
                2 * processed == i * (2 * len - i - 1),
                self@.num_witness == old(self)@.num_witness + processed,
                self@.constraints.len() == old(self)@.constraints.len() + processed,
                forall|k: int|
                    0 <= k < old(self)@.constraints.len() ==> self@.constraints[k] == old(
                        self,
                    )@.constraints[k],
                old(self)@.num_public + old(self)@.num_witness + group@.len() * group@.len() + 2
                    <= usize::MAX,
                forall|k: int|
                    0 <= k < group@.len() ==> lc_wf(
                        (#[trigger] group@[k])@,
                        old(self)@.num_public,
                        old(self)@.num_witness,
                    ),
                old(self)@.wits.len() <= self@.wits.len(),
                forall|k: int| 0 <= k < old(self)@.wits.len() ==> old(self)@.wits[k] == self@.wits[k],
                self@.mode == Mode::Witnessed ==> forall|a: int, b: int|
                    0 <= a < b < group@.len() && a < i ==> #[trigger] lc_int(
                        group@[a]@,
                        pubs0,
                        wits0,
                    ) % m != #[trigger] lc_int(group@[b]@, pubs0, wits0) % m,
            decreases len - i,
        {
            let mut j: usize = i + 1;
            while j < len
                invariant
                    m == field_modulus(),
                    pubs0 == old(self)@.pubs,
                    wits0 == old(self)@.wits,
                    len == group@.len(),
                    i < len,
                    i + 1 <= j <= len,
                    cs_wf(old(self)@),
                    cs_wf(self@),
                    self@.mode == old(self)@.mode,
                    self@.finalized == old(self)@.finalized,
                    !self@.finalized,
                    self@.num_public == old(self)@.num_public,
                    self@.pubs == old(self)@.pubs,
                    0 <= processed,
                    processed <= i * len + (j - i),
                    2 * processed == i * (2 * len - i - 1) + 2 * (j - i - 1),
                    self@.num_witness == old(self)@.num_witness + processed,
                    self@.constraints.len() == old(self)@.constraints.len() + processed,
                    forall|k: int|
                        0 <= k < old(self)@.constraints.len() ==> self@.constraints[k] == old(
                            self,
                        )@.constraints[k],
                    old(self)@.num_public + old(self)@.num_witness + group@.len() * group@.len()
                        + 2 <= usize::MAX,
                    forall|k: int|
                        0 <= k < group@.len() ==> lc_wf(
                            (#[trigger] group@[k])@,
                            old(self)@.num_public,
                            old(self)@.num_witness,
                        ),
                    old(self)@.wits.len() <= self@.wits.len(),
                    forall|k: int|
                        0 <= k < old(self)@.wits.len() ==> old(self)@.wits[k] == self@.wits[k],
                    self@.mode == Mode::Witnessed ==> forall|a: int, b: int|
                        0 <= a < b < group@.len() && (a < i || (a == i && b < j))
                            ==> #[trigger] lc_int(group@[a]@, pubs0, wits0) % m
                            != #[trigger] lc_int(group@[b]@, pubs0, wits0) % m,
                decreases len - j,
            {
                proof {
                    assert(i * len + (j - i) <= len * len) by (nonlinear_arith)
                        requires
                            0 <= i,
                            i < len,
                            j <= len,
                    ;
                    lemma_lc_wf_mono(
                        group@[i as int]@,
                        old(self)@.num_public,
                        old(self)@.num_witness,
                        self@.num_public,
                        self@.num_witness,
                    );
                    lemma_lc_wf_mono(
                        group@[j as int]@,
                        old(self)@.num_public,
                        old(self)@.num_witness,
                        self@.num_public,
                        self@.num_witness,
                    );
                }
                let ghost wits_pre = self@.wits;
                match self.enforce_not_equal(&group[i], &group[j]) {
                    Ok(()) => {},
                    Err(e) => {
                        proof {
                            if self@.mode == Mode::Witnessed {
                                lemma_lc_int_stable(group@[i as int]@, pubs0, wits0, wits_pre);
                                lemma_lc_int_stable(group@[j as int]@, pubs0, wits0, wits_pre);
                                assert(e == Error::DivisionByZero);
                                assert(lc_int(group@[i as int]@, pubs0, wits0) % m == lc_int(
                                    group@[j as int]@,
                                    pubs0,
                                    wits0,
                                ) % m);
                            }
                        }
                        return Err(e);
                    },
                }
                proof {
                    if self@.mode == Mode::Witnessed {
                        lemma_lc_int_stable(group@[i as int]@, pubs0, wits0, wits_pre);
                        lemma_lc_int_stable(group@[j as int]@, pubs0, wits0, wits_pre);
                        assert(lc_int(group@[i as int]@, pubs0, wits0) % m != lc_int(
                            group@[j as int]@,
                            pubs0,
                            wits0,
                        ) % m);
                    }
                    processed = processed + 1;
                }
                j += 1;
            }
            proof {
                assert(i * len + (len - i) <= (i + 1) * len) by (nonlinear_arith)
                    requires
                        0 <= i,
                        i < len,
                ;
                assert(i * (2 * len - i - 1) + 2 * (len - i - 1) == (i + 1) * (2 * len - (i + 1)
                    - 1)) by (nonlinear_arith);
            }
            i += 1;
        }
        proof {
            assert(len * (2 * len - len - 1) == len * (len - 1)) by (nonlinear_arith);
        }
        Ok(())
    }
}

} // verus!
