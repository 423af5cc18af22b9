//! The R1CS compiler: flattens an accumulated constraint system into
//! sparse matrices A, B, C.
//!
//! One matrix row is assigned per constraint, in insertion order, and
//! one column per allocated variable: the implicit constant first, then
//! the public inputs in allocation order, then the witnesses.
//! Compilation is deterministic — a pure function of the system's
//! contents — so keys generated once from a compiled circuit remain
//! valid for every later proof of the same circuit shape.

use vstd::prelude::*;

verus! {

use crate::field::{fe_clone, fe_one, fe_val, FieldElement};
use crate::lc::{var_wf, LinearCombination, Variable, VarKind};
use crate::system::{constraint_wf, cs_wf, vals, ConstraintSystem, CsView, Mode};

/// The matrix column that a variable occupies: the constant comes
/// first, then the public inputs, then the witnesses.
pub open spec fn col_of(v: Variable, num_public: int) -> int {
    match v.kind {
        VarKind::Constant => 0,
        VarKind::PublicInput => 1 + v.index,
        VarKind::Witness => 1 + num_public + v.index,
    }
}

/// One sparse matrix row: each term of the linear combination becomes a
/// (column, coefficient) entry, in term order.
pub open spec fn row_spec(terms: Seq<(Variable, int)>, num_public: int) -> Seq<(int, int)> {
    terms.map(|i: int, t: (Variable, int)| (col_of(t.0, num_public), t.1))
}

/// The mathematical content of a compiled system.
#[verifier::ext_equal]
pub struct R1csView {
    pub num_public: int,
    pub num_witness: int,
    pub a: Seq<Seq<(int, int)>>,
    pub b: Seq<Seq<(int, int)>>,
    pub c: Seq<Seq<(int, int)>>,
}

/// Compilation as a pure function of the system's contents: one row per
/// constraint, in insertion order.
pub open spec fn compile_spec(v: CsView) -> R1csView {
    R1csView {
        num_public: v.num_public,
        num_witness: v.num_witness,
        a: v.constraints.map(|i: int, c: crate::system::ConstraintView| row_spec(c.a, v.num_public)),
        b: v.constraints.map(|i: int, c: crate::system::ConstraintView| row_spec(c.b, v.num_public)),
        c: v.constraints.map(|i: int, c: crate::system::ConstraintView| row_spec(c.c, v.num_public)),
    }
}

/// Law: compilation is deterministic. Two systems with equal contents
/// compile to identical variable counts and matrix contents, so a
/// proving key generated from one compilation is valid for every later
/// compilation of the same circuit shape.
pub proof fn lemma_compile_deterministic(v1: CsView, v2: CsView)
    requires
        v1 == v2,
    ensures
        compile_spec(v1) == compile_spec(v2),
{
}

/// A compiled rank-1 constraint system: sparse matrices A, B, C with
/// the variable partition. Column `0` is the implicit constant `1`,
/// columns `1 ..= num_public` the public inputs, and the rest the
/// witnesses.
pub struct R1cs {
    pub num_public: usize,
    pub num_witness: usize,
    pub a: Vec<Vec<(usize, FieldElement)>>,
    pub b: Vec<Vec<(usize, FieldElement)>>,
    pub c: Vec<Vec<(usize, FieldElement)>>,
}

/// The view of one sparse exec row.
pub open spec fn exec_row_view(r: Seq<(usize, FieldElement)>) -> Seq<(int, int)> {
    r.map(|i: int, t: (usize, FieldElement)| (t.0 as int, fe_val(t.1)))
}

impl View for R1cs {
    type V = R1csView;

    open spec fn view(&self) -> R1csView {
        R1csView {
            num_public: self.num_public as int,
            num_witness: self.num_witness as int,
            a: self.a@.map(|i: int, r: Vec<(usize, FieldElement)>| exec_row_view(r@)),
            b: self.b@.map(|i: int, r: Vec<(usize, FieldElement)>| exec_row_view(r@)),
            c: self.c@.map(|i: int, r: Vec<(usize, FieldElement)>| exec_row_view(r@)),
        }
    }
}

/// Translates one linear combination into a sparse matrix row.
fn compile_row(lc: &LinearCombination, num_public: usize, num_witness: usize) -> (r: Vec<
    (usize, FieldElement),
>)
    requires
        crate::lc::lc_wf(lc@, num_public as int, num_witness as int),
        num_public + num_witness + 1 <= usize::MAX,
    ensures
        exec_row_view(r@) =~= row_spec(lc@, num_public as int),
{
    let mut row: Vec<(usize, FieldElement)> = Vec::new();
    let mut i: usize = 0;
    while i < lc.terms.len()
        invariant
            crate::lc::lc_wf(lc@, num_public as int, num_witness as int),
            num_public + num_witness + 1 <= usize::MAX,
            i <= lc.terms.len(),
            exec_row_view(row@) =~= row_spec(lc@.take(i as int), num_public as int),
        decreases lc.terms.len() - i,
    {
        let v = lc.terms[i].0;
        proof {
            assert(var_wf(lc@[i as int].0, num_public as int, num_witness as int));
        }
        let col: usize = match v.kind {
            VarKind::Constant => 0,
            VarKind::PublicInput => 1 + v.index,
            VarKind::Witness => 1 + num_public + v.index,
        };
        row.push((col, fe_clone(&lc.terms[i].1)));
        proof {
            assert(col as int == col_of(lc@[i as int].0, num_public as int));
            assert(lc@.take(i + 1) =~= lc@.take(i as int).push(lc@[i as int]));
            assert(row_spec(lc@.take(i + 1), num_public as int) =~= row_spec(
                lc@.take(i as int),
                num_public as int,
            ).push((col_of(lc@[i as int].0, num_public as int), lc@[i as int].1)));
            assert(exec_row_view(row@) =~= row_spec(lc@.take(i + 1), num_public as int));
        }
        i += 1;
    }
    proof {
        assert(lc@.take(lc.terms.len() as int) =~= lc@);
    }
    row
}

impl ConstraintSystem {
    /// Compiles the system into sparse R1CS matrices, walking the
    /// constraint list once in insertion order, and marks the system
    /// finalized: later allocations fail. The result is exactly
    /// [`compile_spec`] of the system's contents.
    pub fn compile(&mut self) -> (r: R1cs)
        requires
            cs_wf(old(self)@),
        ensures
            cs_wf(final(self)@),
            final(self)@ == (CsView { finalized: true, ..old(self)@ }),
            r@ =~~= compile_spec(old(self)@),
    {
        self.finalized = true;
        let mut a: Vec<Vec<(usize, FieldElement)>> = Vec::new();
        let mut b: Vec<Vec<(usize, FieldElement)>> = Vec::new();
        let mut c: Vec<Vec<(usize, FieldElement)>> = Vec::new();
        let mut i: usize = 0;
        while i < self.constraints.len()
            invariant
                cs_wf(self@),
                i <= self.constraints.len(),
                a@.len() == i,
                b@.len() == i,
                c@.len() == i,
                forall|k: int|
                    0 <= k < i ==> exec_row_view((#[trigger] a@[k])@) =~= row_spec(
                        self@.constraints[k].a,
                        self@.num_public,
                    ),
                forall|k: int|
                    0 <= k < i ==> exec_row_view((#[trigger] b@[k])@) =~= row_spec(
                        self@.constraints[k].b,
                        self@.num_public,
                    ),
                forall|k: int|
                    0 <= k < i ==> exec_row_view((#[trigger] c@[k])@) =~= row_spec(
                        self@.constraints[k].c,
                        self@.num_public,
                    ),
            decreases self.constraints.len() - i,
        {
            proof {
                assert(constraint_wf(
                    self@.constraints[i as int],
                    self@.num_public,
                    self@.num_witness,
                ));
            }
            let ra = compile_row(&self.constraints[i].a, self.num_public, self.num_witness);
            let rb = compile_row(&self.constraints[i].b, self.num_public, self.num_witness);
            let rc = compile_row(&self.constraints[i].c, self.num_public, self.num_witness);
            a.push(ra);
            b.push(rb);
            c.push(rc);
            i += 1;
        }
        let r = R1cs { num_public: self.num_public, num_witness: self.num_witness, a, b, c };
        proof {
            assert(r@.a =~~= compile_spec(self@).a);
            assert(r@.b =~~= compile_spec(self@).b);
            assert(r@.c =~~= compile_spec(self@).c);
            assert(final(self)@ =~~= (CsView { finalized: true, ..old(self)@ }));
        }
        r
    }

    /// The public-input vector in exact allocation order, without the
    /// implicit leading constant `1`. This is the order a verifier must
    /// receive.
    pub fn public_inputs(&self) -> (r: Vec<FieldElement>)
        ensures
            vals(r@) =~= self@.pubs,
    {
        let mut r: Vec<FieldElement> = Vec::new();
        let mut i: usize = 0;
        while i < self.public_values.len()
            invariant
                i <= self.public_values.len(),
                vals(r@) =~= self@.pubs.take(i as int),
            decreases self.public_values.len() - i,
        {
            r.push(fe_clone(&self.public_values[i]));
            proof {
                assert(self@.pubs.take(i + 1) =~= self@.pubs.take(i as int).push(
                    self@.pubs[i as int],
                ));
            }
            i += 1;
        }
        proof {
            assert(self@.pubs.take(self.public_values.len() as int) =~= self@.pubs);
        }
        r
    }

    /// The full variable assignment in column order: the constant `1`
    /// first, then the public inputs, then the witnesses. This is what
    /// a prover consumes.
    pub fn full_assignment(&self) -> (r: Vec<FieldElement>)
        ensures
            vals(r@) =~= seq![1int] + self@.pubs + self@.wits,
    {
        let mut r: Vec<FieldElement> = Vec::new();
        r.push(fe_one());
        let mut i: usize = 0;
        while i < self.public_values.len()
            invariant
                i <= self.public_values.len(),
                vals(r@) =~= seq![1int] + self@.pubs.take(i as int),
            decreases self.public_values.len() - i,
        {
            r.push(fe_clone(&self.public_values[i]));
            proof {
                assert(self@.pubs.take(i + 1) =~= self@.pubs.take(i as int).push(
                    self@.pubs[i as int],
                ));
                assert(seq![1int] + self@.pubs.take(i + 1) =~= (seq![1int] + self@.pubs.take(
                    i as int,
                )).push(self@.pubs[i as int]));
            }
            i += 1;
        }
        proof {
            assert(self@.pubs.take(self.public_values.len() as int) =~= self@.pubs);
        }
        let mut j: usize = 0;
        while j < self.witness_values.len()
            invariant
                j <= self.witness_values.len(),
                vals(r@) =~= seq![1int] + self@.pubs + self@.wits.take(j as int),
            decreases self.witness_values.len() - j,
        {
            r.push(fe_clone(&self.witness_values[j]));
            proof {
                assert(self@.wits.take(j + 1) =~= self@.wits.take(j as int).push(
                    self@.wits[j as int],
                ));
                assert(seq![1int] + self@.pubs + self@.wits.take(j + 1) =~= (seq![1int]
                    + self@.pubs + self@.wits.take(j as int)).push(self@.wits[j as int]));
            }
            j += 1;
        }
        proof {
            assert(self@.wits.take(self.witness_values.len() as int) =~= self@.wits);
        }
        r
    }
}

} // verus!
