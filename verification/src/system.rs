//! The constraint system: variable allocation, constraint accumulation,
//! and the local satisfiability check.
//!
//! A system is created per proof session in one of two modes:
//! `StructureOnly` carries no concrete values and is used for setup;
//! `Witnessed` requires a concrete value for every allocated variable and
//! is used for proving. Constraints are triples of linear combinations
//! `(a, b, c)` meaning `a·b = c` in the field; insertion order is
//! significant and preserved.

use vstd::prelude::*;

verus! {

use vstd::arithmetic::div_mod::{lemma_add_mod_noop, lemma_mod_twice, lemma_small_mod};
use crate::field::{
    fe_add, fe_clone, fe_eq, fe_mul, fe_one, fe_val, fe_zero, field_modulus, FieldElement,
};
use crate::lc::{
    lc_int, lc_wf, lemma_lc_int_push, var_value, var_wf, LinearCombination, Variable, VarKind,
};
use crate::Error;

/// The sequence of canonical integers behind a vector of field elements.
pub open spec fn vals(s: Seq<FieldElement>) -> Seq<int> {
    s.map(|i: int, x: FieldElement| fe_val(x))
}

/// Whether a system carries concrete values.
#[derive(Clone, Copy, PartialEq, Eq, Structural, Debug)]
pub enum Mode {
    /// Constraint shapes only, no concrete values; used for setup.
    StructureOnly,
    /// Every allocation carries a concrete value; used for proving.
    Witnessed,
}

/// One rank-1 constraint `a·b = c` over linear combinations.
pub struct Constraint {
    pub a: LinearCombination,
    pub b: LinearCombination,
    pub c: LinearCombination,
}

/// The mathematical content of a [`Constraint`]: its three term lists.
#[verifier::ext_equal]
pub struct ConstraintView {
    pub a: Seq<(Variable, int)>,
    pub b: Seq<(Variable, int)>,
    pub c: Seq<(Variable, int)>,
}

impl View for Constraint {
    type V = ConstraintView;

    open spec fn view(&self) -> ConstraintView {
        ConstraintView { a: self.a@, b: self.b@, c: self.c@ }
    }
}

/// Every linear combination of the constraint references only allocated
/// variables.
pub open spec fn constraint_wf(c: ConstraintView, num_public: int, num_witness: int) -> bool {
    lc_wf(c.a, num_public, num_witness) && lc_wf(c.b, num_public, num_witness) && lc_wf(
        c.c,
        num_public,
        num_witness,
    )
}

/// A constraint holds under an assignment when the product of the field
/// values of `a` and `b` equals the field value of `c`.
pub open spec fn constraint_satisfied(c: ConstraintView, pubs: Seq<int>, wits: Seq<int>) -> bool {
    ((lc_int(c.a, pubs, wits) % field_modulus()) * (lc_int(c.b, pubs, wits) % field_modulus()))
        % field_modulus() == lc_int(c.c, pubs, wits) % field_modulus()
}

/// The mathematical content of a [`ConstraintSystem`].
#[verifier::ext_equal]
pub struct CsView {
    pub mode: Mode,
    pub constraints: Seq<ConstraintView>,
    pub num_public: int,
    pub num_witness: int,
    pub pubs: Seq<int>,
    pub wits: Seq<int>,
    pub finalized: bool,
}

/// Well-formedness of a system: constraints reference only allocated
/// variables, value vectors match the allocation counts in `Witnessed`
/// mode and are absent in `StructureOnly` mode, and the variable count
/// leaves room for the compiler's column indexing.
pub open spec fn cs_wf(v: CsView) -> bool {
    &&& forall|i: int|
        0 <= i < v.constraints.len() ==> constraint_wf(
            #[trigger] v.constraints[i],
            v.num_public,
            v.num_witness,
        )
    &&& (v.mode == Mode::Witnessed ==> v.pubs.len() == v.num_public && v.wits.len()
        == v.num_witness)
    &&& (v.mode == Mode::StructureOnly ==> v.pubs.len() == 0 && v.wits.len() == 0)
    &&& 0 <= v.num_public
    &&& 0 <= v.num_witness
    &&& v.num_public + v.num_witness + 1 <= usize::MAX
}

/// Every recorded constraint holds under the stored assignment.
pub open spec fn cs_satisfied(v: CsView) -> bool {
    forall|i: int|
        0 <= i < v.constraints.len() ==> constraint_satisfied(
            #[trigger] v.constraints[i],
            v.pubs,
            v.wits,
        )
}

/// A constraint's satisfaction only reads assignment entries at
/// allocated indices, so it is unchanged when the assignment is
/// extended with fresh values.
pub proof fn lemma_constraint_satisfied_stable(
    c: ConstraintView,
    pubs: Seq<int>,
    wits1: Seq<int>,
    wits2: Seq<int>,
)
    requires
        constraint_wf(c, pubs.len() as int, wits1.len() as int),
        wits1.len() <= wits2.len(),
        forall|i: int| 0 <= i < wits1.len() ==> wits1[i] == wits2[i],
    ensures
        constraint_satisfied(c, pubs, wits2) == constraint_satisfied(c, pubs, wits1),
{
    crate::lc::lemma_lc_int_stable(c.a, pubs, wits1, wits2);
    crate::lc::lemma_lc_int_stable(c.b, pubs, wits1, wits2);
    crate::lc::lemma_lc_int_stable(c.c, pubs, wits1, wits2);
}

/// A constraint's satisfaction is likewise unchanged when both
/// assignments are extended with fresh values.
pub proof fn lemma_constraint_satisfied_stable_both(
    c: ConstraintView,
    pubs1: Seq<int>,
    pubs2: Seq<int>,
    wits1: Seq<int>,
    wits2: Seq<int>,
)
    requires
        constraint_wf(c, pubs1.len() as int, wits1.len() as int),
        pubs1.len() <= pubs2.len(),
        forall|i: int| 0 <= i < pubs1.len() ==> pubs1[i] == pubs2[i],
        wits1.len() <= wits2.len(),
        forall|i: int| 0 <= i < wits1.len() ==> wits1[i] == wits2[i],
    ensures
        constraint_satisfied(c, pubs2, wits2) == constraint_satisfied(c, pubs1, wits1),
{
    crate::lc::lemma_lc_int_stable_both(c.a, pubs1, pubs2, wits1, wits2);
    crate::lc::lemma_lc_int_stable_both(c.b, pubs1, pubs2, wits1, wits2);
    crate::lc::lemma_lc_int_stable_both(c.c, pubs1, pubs2, wits1, wits2);
}

/// Constraint well-formedness is preserved when the allocation counts
/// grow: an already-recorded constraint never references the new
/// variables.
pub proof fn lemma_constraint_wf_mono(
    c: ConstraintView,
    np1: int,
    nw1: int,
    np2: int,
    nw2: int,
)
    requires
        constraint_wf(c, np1, nw1),
        np1 <= np2,
        nw1 <= nw2,
    ensures
        constraint_wf(c, np2, nw2),
{
    assert forall|i: int| 0 <= i < c.a.len() implies var_wf(#[trigger] c.a[i].0, np2, nw2) by {
        assert(var_wf(c.a[i].0, np1, nw1));
    }
    assert forall|i: int| 0 <= i < c.b.len() implies var_wf(#[trigger] c.b[i].0, np2, nw2) by {
        assert(var_wf(c.b[i].0, np1, nw1));
    }
    assert forall|i: int| 0 <= i < c.c.len() implies var_wf(#[trigger] c.c[i].0, np2, nw2) by {
        assert(var_wf(c.c[i].0, np1, nw1));
    }
}

/// An ordered accumulator of rank-1 constraints together with the
/// allocation counts and, in `Witnessed` mode, the concrete assignment.
/// One instance serves one proof session: populated once during
/// synthesis, compiled once, then discarded.
pub struct ConstraintSystem {
    pub mode: Mode,
    pub constraints: Vec<Constraint>,
    pub num_public: usize,
    pub num_witness: usize,
    pub public_values: Vec<FieldElement>,
    pub witness_values: Vec<FieldElement>,
    pub finalized: bool,
}

impl View for ConstraintSystem {
    type V = CsView;

    open spec fn view(&self) -> CsView {
        CsView {
            mode: self.mode,
            constraints: self.constraints@.map(|i: int, c: Constraint| c@),
            num_public: self.num_public as int,
            num_witness: self.num_witness as int,
            pubs: vals(self.public_values@),
            wits: vals(self.witness_values@),
            finalized: self.finalized,
        }
    }
}

impl ConstraintSystem {
    /// A fresh, empty system in the given mode.
    pub fn new(mode: Mode) -> (r: ConstraintSystem)
        ensures
            cs_wf(r@),
            r@.mode == mode,
            r@.constraints =~= Seq::<ConstraintView>::empty(),
            r@.num_public == 0,
            r@.num_witness == 0,
            r@.pubs =~= Seq::<int>::empty(),
            r@.wits =~= Seq::<int>::empty(),
            !r@.finalized,
    {
        ConstraintSystem {
            mode,
            constraints: Vec::new(),
            num_public: 0,
            num_witness: 0,
            public_values: Vec::new(),
            witness_values: Vec::new(),
            finalized: false,
        }
    }

    /// Allocates the next public-input variable. In `Witnessed` mode the
    /// concrete value must be present; in `StructureOnly` mode any value
    /// passed is ignored. Allocation after compilation fails.
    pub fn alloc_public(&mut self, value: Option<FieldElement>) -> (r: Result<Variable, Error>)
        requires
            cs_wf(old(self)@),
            old(self)@.num_public + old(self)@.num_witness + 2 <= usize::MAX,
        ensures
            cs_wf(final(self)@),
            final(self)@.mode == old(self)@.mode,
            final(self)@.finalized == old(self)@.finalized,
            final(self)@.constraints == old(self)@.constraints,
            final(self)@.wits == old(self)@.wits,
            final(self)@.num_witness == old(self)@.num_witness,
            r is Ok <==> (!old(self)@.finalized && !(old(self)@.mode == Mode::Witnessed
                && value is None)),
            r matches Ok(v) ==> {
                &&& v == (Variable { kind: VarKind::PublicInput, index: old(self).num_public })
                &&& final(self)@.num_public == old(self)@.num_public + 1
                &&& (old(self)@.mode == Mode::Witnessed ==> (value matches Some(x)
                    && final(self)@.pubs =~= old(self)@.pubs.push(fe_val(x))))
                &&& (old(self)@.mode == Mode::StructureOnly
                    ==> final(self)@.pubs == old(self)@.pubs)
            },
            r matches Err(e) ==> {
                &&& final(self)@ == old(self)@
                &&& (e == Error::AllocationAfterFinalize <==> old(self)@.finalized)
                &&& (e == Error::MissingAssignment <==> !old(self)@.finalized)
            },
    {
        if self.finalized {
            return Err(Error::AllocationAfterFinalize);
        }
        let index = self.num_public;
        match self.mode {
            Mode::Witnessed => {
                match value {
                    Some(x) => {
                        self.public_values.push(x);
                    },
                    None => {
                        return Err(Error::MissingAssignment);
                    },
                }
            },
            Mode::StructureOnly => {},
        }
        self.num_public = self.num_public + 1;
        proof {
            assert forall|i: int| 0 <= i < final(self)@.constraints.len() implies constraint_wf(
                #[trigger] final(self)@.constraints[i],
                final(self)@.num_public,
                final(self)@.num_witness,
            ) by {
                lemma_constraint_wf_mono(
                    old(self)@.constraints[i],
                    old(self)@.num_public,
                    old(self)@.num_witness,
                    final(self)@.num_public,
                    final(self)@.num_witness,
                );
            }
            if old(self)@.mode == Mode::Witnessed {
                assert(final(self)@.pubs =~= old(self)@.pubs.push(
                    fe_val(value.unwrap()),
                ));
            }
        }
        Ok(Variable { kind: VarKind::PublicInput, index })
    }

    /// Allocates the next witness variable, under the same mode rules as
    /// [`Self::alloc_public`].
    pub fn alloc_witness(&mut self, value: Option<FieldElement>) -> (r: Result<Variable, Error>)
        requires
            cs_wf(old(self)@),
            old(self)@.num_public + old(self)@.num_witness + 2 <= usize::MAX,
        ensures
            cs_wf(final(self)@),
            final(self)@.mode == old(self)@.mode,
            final(self)@.finalized == old(self)@.finalized,
            final(self)@.constraints == old(self)@.constraints,
            final(self)@.pubs == old(self)@.pubs,
            final(self)@.num_public == old(self)@.num_public,
            r is Ok <==> (!old(self)@.finalized && !(old(self)@.mode == Mode::Witnessed
                && value is None)),
            r matches Ok(v) ==> {
                &&& v == (Variable { kind: VarKind::Witness, index: old(self).num_witness })
                &&& final(self)@.num_witness == old(self)@.num_witness + 1
                &&& (old(self)@.mode == Mode::Witnessed ==> (value matches Some(x)
                    && final(self)@.wits =~= old(self)@.wits.push(fe_val(x))))
                &&& (old(self)@.mode == Mode::StructureOnly
                    ==> final(self)@.wits == old(self)@.wits)
            },
            r matches Err(e) ==> {
                &&& final(self)@ == old(self)@
                &&& (e == Error::AllocationAfterFinalize <==> old(self)@.finalized)
                &&& (e == Error::MissingAssignment <==> !old(self)@.finalized)
            },
    {
        if self.finalized {
            return Err(Error::AllocationAfterFinalize);
        }
        let index = self.num_witness;
        match self.mode {
            Mode::Witnessed => {
                match value {
                    Some(x) => {
                        self.witness_values.push(x);
                    },
                    None => {
                        return Err(Error::MissingAssignment);
                    },
                }
            },
            Mode::StructureOnly => {},
        }
        self.num_witness = self.num_witness + 1;
        proof {
            assert forall|i: int| 0 <= i < final(self)@.constraints.len() implies constraint_wf(
                #[trigger] final(self)@.constraints[i],
                final(self)@.num_public,
                final(self)@.num_witness,
            ) by {
                lemma_constraint_wf_mono(
                    old(self)@.constraints[i],
                    old(self)@.num_public,
                    old(self)@.num_witness,
                    final(self)@.num_public,
                    final(self)@.num_witness,
                );
            }
            if old(self)@.mode == Mode::Witnessed {
                assert(final(self)@.wits =~= old(self)@.wits.push(
                    fe_val(value.unwrap()),
                ));
            }
        }
        Ok(Variable { kind: VarKind::Witness, index })
    }

    /// Records the constraint `a·b = c`. The combinations must reference
    /// only allocated variables; insertion order is preserved.
    pub fn enforce(&mut self, a: &LinearCombination, b: &LinearCombination, c: &LinearCombination)
        requires
            cs_wf(old(self)@),
            lc_wf(a@, old(self)@.num_public, old(self)@.num_witness),
            lc_wf(b@, old(self)@.num_public, old(self)@.num_witness),
            lc_wf(c@, old(self)@.num_public, old(self)@.num_witness),
        ensures
            cs_wf(final(self)@),
            final(self)@ == (CsView {
                constraints: old(self)@.constraints.push(
                    ConstraintView { a: a@, b: b@, c: c@ },
                ),
                ..old(self)@
            }),
    {
        let cst = Constraint { a: a.duplicate(), b: b.duplicate(), c: c.duplicate() };
        proof {
            let f = |i: int, cc: Constraint| cc@;
            assert(old(self).constraints@.push(cst).map(f) =~= old(self)@.constraints.push(
                ConstraintView { a: a@, b: b@, c: c@ },
            ));
        }
        self.constraints.push(cst);
        proof {
            assert(final(self)@ =~~= (CsView {
                constraints: old(self)@.constraints.push(ConstraintView { a: a@, b: b@, c: c@ }),
                ..old(self)@
            }));
        }
    }

    /// Evaluates a linear combination against the stored assignment:
    /// the weighted sum of the variable values, reduced by the field
    /// modulus. Reading a concrete value in `StructureOnly` mode fails
    /// with `MissingAssignment`.
    pub fn evaluate(&self, lc: &LinearCombination) -> (r: Result<FieldElement, Error>)
        requires
            cs_wf(self@),
            lc_wf(lc@, self@.num_public, self@.num_witness),
        ensures
            self@.mode == Mode::StructureOnly ==> r == Err::<FieldElement, Error>(
                Error::MissingAssignment,
            ),
            self@.mode == Mode::Witnessed ==> (r matches Ok(x) && fe_val(x) == lc_int(
                lc@,
                self@.pubs,
                self@.wits,
            ) % field_modulus()),
    {
        match self.mode {
            Mode::StructureOnly => Err(Error::MissingAssignment),
            Mode::Witnessed => {
                let mut acc = fe_zero();
                proof {
                    lemma_small_mod(0, field_modulus() as nat);
                }
                let mut i: usize = 0;
                while i < lc.terms.len()
                    invariant
                        cs_wf(self@),
                        self@.mode == Mode::Witnessed,
                        lc_wf(lc@, self@.num_public, self@.num_witness),
                        i <= lc.terms.len(),
                        fe_val(acc) == lc_int(lc@.take(i as int), self@.pubs, self@.wits)
                            % field_modulus(),
                    decreases lc.terms.len() - i,
                {
                    let v = lc.terms[i].0;
                    proof {
                        assert(var_wf(lc@[i as int].0, self@.num_public, self@.num_witness));
                    }
                    let value = match v.kind {
                        VarKind::Constant => fe_one(),
                        VarKind::PublicInput => fe_clone(&self.public_values[v.index]),
                        VarKind::Witness => fe_clone(&self.witness_values[v.index]),
                    };
                    let term = fe_mul(&lc.terms[i].1, &value);
                    let next = fe_add(&acc, &term);
                    proof {
                        let pubs = self@.pubs;
                        let wits = self@.wits;
                        let c = lc@[i as int].1;
                        let vv = var_value(lc@[i as int].0, pubs, wits);
                        assert(fe_val(value) == vv);
                        let prefix = lc@.take(i as int);
                        assert(lc@.take(i + 1) =~= prefix.push(lc@[i as int]));
                        lemma_lc_int_push(prefix, lc@[i as int], pubs, wits);
                        let sum = lc_int(prefix, pubs, wits);
                        lemma_add_mod_noop(sum, c * vv, field_modulus());
                        lemma_mod_twice(sum, field_modulus());
                        lemma_mod_twice(c * vv, field_modulus());
                        assert(fe_val(next) == (fe_val(acc) + fe_val(term)) % field_modulus());
                        assert(fe_val(next) == (sum + c * vv) % field_modulus());
                    }
                    acc = next;
                    i += 1;
                }
                proof {
                    assert(lc@.take(lc.terms.len() as int) =~= lc@);
                }
                Ok(acc)
            },
        }
    }

    /// The local satisfiability pass: evaluates every constraint against
    /// the stored assignment, in insertion order, and reports the first
    /// violation as `ConstraintUnsatisfied`. Run before any expensive
    /// proving work.
    pub fn check_satisfied(&self) -> (r: Result<(), Error>)
        requires
            cs_wf(self@),
        ensures
            self@.mode == Mode::StructureOnly ==> r == Err::<(), Error>(Error::MissingAssignment),
            self@.mode == Mode::Witnessed ==> r == (if cs_satisfied(self@) {
                Ok::<(), Error>(())
            } else {
                Err::<(), Error>(Error::ConstraintUnsatisfied)
            }),
    {
        match self.mode {
            Mode::StructureOnly => Err(Error::MissingAssignment),
            Mode::Witnessed => {
                let mut i: usize = 0;
                while i < self.constraints.len()
                    invariant
                        cs_wf(self@),
                        self@.mode == Mode::Witnessed,
                        i <= self.constraints.len(),
                        forall|k: int|
                            0 <= k < i ==> constraint_satisfied(
                                #[trigger] self@.constraints[k],
                                self@.pubs,
                                self@.wits,
                            ),
                    decreases self.constraints.len() - i,
                {
                    proof {
                        assert(constraint_wf(
                            self@.constraints[i as int],
                            self@.num_public,
                            self@.num_witness,
                        ));
                    }
                    let av = match self.evaluate(&self.constraints[i].a) {
                        Ok(x) => x,
                        Err(_) => {
                            proof {
                                assert(false);
                            }
                            return Err(Error::MissingAssignment);
                        },
                    };
                    let bv = match self.evaluate(&self.constraints[i].b) {
                        Ok(x) => x,
                        Err(_) => {
                            proof {
                                assert(false);
                            }
                            return Err(Error::MissingAssignment);
                        },
                    };
                    let cv = match self.evaluate(&self.constraints[i].c) {
                        Ok(x) => x,
                        Err(_) => {
                            proof {
                                assert(false);
                            }
                            return Err(Error::MissingAssignment);
                        },
                    };
                    let prod = fe_mul(&av, &bv);
                    let holds = fe_eq(&prod, &cv);
                    proof {
                        let m = field_modulus();
                        let cvw = self@.constraints[i as int];
                        let ia = lc_int(cvw.a, self@.pubs, self@.wits);
                        let ib = lc_int(cvw.b, self@.pubs, self@.wits);
                        let ic = lc_int(cvw.c, self@.pubs, self@.wits);
                        lemma_mod_twice((ia % m) * (ib % m), m);
                        lemma_mod_twice(ic, m);
                        assert(fe_val(prod) == ((ia % m) * (ib % m)) % m);
                        assert(holds == (((ia % m) * (ib % m)) % m == ic % m));
                        assert(holds == constraint_satisfied(cvw, self@.pubs, self@.wits));
                    }
                    if !holds {
                        return Err(Error::ConstraintUnsatisfied);
                    }
                    i += 1;
                }
                Ok(())
            },
        }
    }
}

} // verus!
