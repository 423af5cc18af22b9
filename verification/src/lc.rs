//! Variables and linear combinations.
//!
//! A [`Variable`] is a kind (the reserved constant, a public input, or a
//! witness) together with an index that is allocated monotonically within
//! its kind. A [`LinearCombination`] is a list of variable/coefficient
//! terms; a constant term is carried as a coefficient on the reserved
//! constant variable. Its mathematical meaning under an assignment is the
//! plain integer weighted sum [`lc_int`], and the field value it
//! evaluates to is that sum reduced by the field modulus.

use vstd::prelude::*;

verus! {

use vstd::arithmetic::div_mod::{
    lemma_add_mod_noop, lemma_add_mod_noop_right, lemma_fundamental_div_mod,
    lemma_mod_multiples_vanish, lemma_mod_self_0, lemma_mod_twice, lemma_mul_mod_noop_left,
    lemma_small_mod,
};
use crate::field::{fe_clone, fe_one, fe_sub, fe_val, fe_zero, field_modulus, FieldElement};

/// Which partition of the variable vector a variable lives in.
#[derive(Clone, Copy, PartialEq, Eq, Structural, Debug)]
pub enum VarKind {
    /// The reserved variable standing for the constant `1`.
    Constant,
    /// A public-input variable, known to prover and verifier.
    PublicInput,
    /// A witness variable, known only to the prover.
    Witness,
}

/// A handle to an allocated variable. Index `0` of kind `Constant` is
/// reserved for the implicit constant `1`; indices within each other
/// kind are allocated monotonically and never reused.
#[derive(Clone, Copy, PartialEq, Eq, Structural, Debug)]
pub struct Variable {
    pub kind: VarKind,
    pub index: usize,
}

impl Variable {
    /// The reserved constant variable, whose value is always `1`.
    pub fn constant_one() -> (r: Variable)
        ensures
            r == (Variable { kind: VarKind::Constant, index: 0 }),
    {
        Variable { kind: VarKind::Constant, index: 0 }
    }
}

/// A variable is valid for a system that has allocated `num_public`
/// public inputs and `num_witness` witnesses.
pub open spec fn var_wf(v: Variable, num_public: int, num_witness: int) -> bool {
    match v.kind {
        VarKind::Constant => v.index == 0,
        VarKind::PublicInput => v.index < num_public,
        VarKind::Witness => v.index < num_witness,
    }
}

/// The integer a variable stands for under an assignment: `1` for the
/// reserved constant, else the stored public or witness value.
pub open spec fn var_value(v: Variable, pubs: Seq<int>, wits: Seq<int>) -> int {
    match v.kind {
        VarKind::Constant => 1,
        VarKind::PublicInput => pubs[v.index as int],
        VarKind::Witness => wits[v.index as int],
    }
}

/// The plain integer weighted sum of a term list under an assignment.
/// The field value of the combination is this sum modulo
/// [`field_modulus`].
pub open spec fn lc_int(terms: Seq<(Variable, int)>, pubs: Seq<int>, wits: Seq<int>) -> int
    decreases terms.len(),
{
    if terms.len() == 0 {
        0
    } else {
        lc_int(terms.drop_last(), pubs, wits) + terms.last().1 * var_value(
            terms.last().0,
            pubs,
            wits,
        )
    }
}

/// Every term of a term list references an allocated variable.
pub open spec fn lc_wf(terms: Seq<(Variable, int)>, num_public: int, num_witness: int) -> bool {
    forall|i: int| 0 <= i < terms.len() ==> var_wf(#[trigger] terms[i].0, num_public, num_witness)
}

/// The coefficient that negates `c` modulo the field modulus.
pub open spec fn neg_coeff(c: int) -> int {
    (field_modulus() - c) % field_modulus()
}

/// The term list with every coefficient negated in the field.
pub open spec fn negated_terms(s: Seq<(Variable, int)>) -> Seq<(Variable, int)> {
    Seq::new(s.len(), |i: int| (s[i].0, neg_coeff(s[i].1)))
}

/// A weighted sum of variables plus an implicit constant term, evaluable
/// against an assignment. Purely a value type; no side effects.
pub struct LinearCombination {
    pub terms: Vec<(Variable, FieldElement)>,
}

impl View for LinearCombination {
    type V = Seq<(Variable, int)>;

    open spec fn view(&self) -> Seq<(Variable, int)> {
        self.terms@.map(|i: int, t: (Variable, FieldElement)| (t.0, fe_val(t.1)))
    }
}

impl LinearCombination {
    /// The empty combination, whose value is `0` under every assignment.
    pub fn new() -> (r: LinearCombination)
        ensures
            r@ =~= Seq::<(Variable, int)>::empty(),
    {
        LinearCombination { terms: Vec::new() }
    }

    /// Appends one scaled-variable term.
    pub fn push_term(&mut self, v: Variable, coeff: FieldElement)
        ensures
            final(self)@ =~= old(self)@.push((v, fe_val(coeff))),
    {
        self.terms.push((v, coeff));
    }

    /// The combination `1 * v`.
    pub fn from_variable(v: Variable) -> (r: LinearCombination)
        ensures
            r@ =~= seq![(v, 1int)],
    {
        let mut r = LinearCombination::new();
        r.push_term(v, fe_one());
        r
    }

    /// A constant term `c`, folded through the reserved constant variable.
    pub fn from_constant(c: FieldElement) -> (r: LinearCombination)
        ensures
            r@ =~= seq![(Variable { kind: VarKind::Constant, index: 0 }, fe_val(c))],
    {
        let mut r = LinearCombination::new();
        r.push_term(Variable::constant_one(), c);
        r
    }

    /// An exact copy of this combination.
    pub fn duplicate(&self) -> (r: LinearCombination)
        ensures
            r@ =~= self@,
    {
        let mut terms: Vec<(Variable, FieldElement)> = Vec::new();
        let mut i: usize = 0;
        while i < self.terms.len()
            invariant
                i <= self.terms.len(),
                terms@.map(|k: int, t: (Variable, FieldElement)| (t.0, fe_val(t.1)))
                    =~= self@.take(i as int),
            decreases self.terms.len() - i,
        {
            let (v, c) = (self.terms[i].0, fe_clone(&self.terms[i].1));
            terms.push((v, c));
            proof {
                assert(self@.take(i + 1) =~= self@.take(i as int).push(self@[i as int]));
            }
            i += 1;
        }
        proof {
            assert(self@.take(self.terms.len() as int) =~= self@);
        }
        LinearCombination { terms }
    }

    /// The term-by-term sum of two combinations.
    pub fn plus(&self, other: &LinearCombination) -> (r: LinearCombination)
        ensures
            r@ =~= self@ + other@,
    {
        let mut r = self.duplicate();
        let mut i: usize = 0;
        while i < other.terms.len()
            invariant
                i <= other.terms.len(),
                r@ =~= self@ + other@.take(i as int),
            decreases other.terms.len() - i,
        {
            r.push_term(other.terms[i].0, fe_clone(&other.terms[i].1));
            proof {
                assert(other@.take(i + 1) =~= other@.take(i as int).push(other@[i as int]));
                assert(self@ + other@.take(i + 1) =~= (self@ + other@.take(i as int)).push(
                    other@[i as int],
                ));
            }
            i += 1;
        }
        proof {
            assert(other@.take(other.terms.len() as int) =~= other@);
        }
        r
    }

    /// The combination with every coefficient negated in the field, so
    /// that its value is the field negation of this one's.
    pub fn negated(&self) -> (r: LinearCombination)
        ensures
            r@.len() == self@.len(),
            forall|i: int|
                0 <= i < self@.len() ==> #[trigger] r@[i] == (self@[i].0, neg_coeff(self@[i].1)),
    {
        let zero = fe_zero();
        let mut terms: Vec<(Variable, FieldElement)> = Vec::new();
        let mut i: usize = 0;
        while i < self.terms.len()
            invariant
                i <= self.terms.len(),
                terms@.len() == i,
                forall|k: int|
                    0 <= k < i ==> (#[trigger] terms@[k]).0 == self@[k].0 && fe_val(terms@[k].1)
                        == neg_coeff(self@[k].1),
                fe_val(zero) == 0,
            decreases self.terms.len() - i,
        {
            let c = fe_sub(&zero, &self.terms[i].1);
            terms.push((self.terms[i].0, c));
            i += 1;
        }
        LinearCombination { terms }
    }

    /// The difference of two combinations, `self - other` in the field.
    pub fn minus(&self, other: &LinearCombination) -> (r: LinearCombination)
        ensures
            r@ =~= self@ + negated_terms(other@),
    {
        let n = other.negated();
        let r = self.plus(&n);
        proof {
            assert(n@ =~= negated_terms(other@));
        }
        r
    }
}

/// The weighted sum of a one-term list is that term's weighted value.
pub proof fn lemma_lc_int_singleton(t: (Variable, int), pubs: Seq<int>, wits: Seq<int>)
    ensures
        lc_int(seq![t], pubs, wits) == t.1 * var_value(t.0, pubs, wits),
{
    assert(seq![t].drop_last() =~= Seq::<(Variable, int)>::empty());
    assert(lc_int(Seq::<(Variable, int)>::empty(), pubs, wits) == 0);
}

/// A one-term combination with coefficient one evaluates to its
/// variable's value.
pub proof fn lemma_unit_singleton_value(
    t: Seq<(Variable, int)>,
    v: Variable,
    pubs: Seq<int>,
    wits: Seq<int>,
)
    requires
        t =~= seq![(v, 1int)],
    ensures
        lc_int(t, pubs, wits) == var_value(v, pubs, wits),
{
    lemma_lc_int_singleton((v, 1int), pubs, wits);
    assert(1 * var_value(v, pubs, wits) == var_value(v, pubs, wits)) by (nonlinear_arith);
}

/// A one-term combination over the freshest witness evaluates to the
/// last stored witness value.
pub proof fn lemma_fresh_witness_value(
    t: Seq<(Variable, int)>,
    v: Variable,
    pubs: Seq<int>,
    wits: Seq<int>,
)
    requires
        t =~= seq![(v, 1int)],
        v.kind == VarKind::Witness,
        wits.len() > 0,
        v.index as int == wits.len() - 1,
    ensures
        lc_int(t, pubs, wits) == wits.last(),
{
    lemma_lc_int_singleton((v, 1int), pubs, wits);
}

/// Appending one term adds its weighted value to the sum.
pub proof fn lemma_lc_int_push(
    terms: Seq<(Variable, int)>,
    t: (Variable, int),
    pubs: Seq<int>,
    wits: Seq<int>,
)
    ensures
        lc_int(terms.push(t), pubs, wits) == lc_int(terms, pubs, wits) + t.1 * var_value(
            t.0,
            pubs,
            wits,
        ),
{
    assert(terms.push(t).drop_last() =~= terms);
}

/// The sum over a concatenation is the sum of the two sums.
pub proof fn lemma_lc_int_concat(
    s1: Seq<(Variable, int)>,
    s2: Seq<(Variable, int)>,
    pubs: Seq<int>,
    wits: Seq<int>,
)
    ensures
        lc_int(s1 + s2, pubs, wits) == lc_int(s1, pubs, wits) + lc_int(s2, pubs, wits),
    decreases s2.len(),
{
    if s2.len() == 0 {
        assert(s1 + s2 =~= s1);
    } else {
        assert((s1 + s2).drop_last() =~= s1 + s2.drop_last());
        lemma_lc_int_concat(s1, s2.drop_last(), pubs, wits);
    }
}

/// A sum only reads assignment entries at allocated indices, so it is
/// unchanged when the assignment is extended with fresh values.
pub proof fn lemma_lc_int_stable(
    terms: Seq<(Variable, int)>,
    pubs: Seq<int>,
    wits1: Seq<int>,
    wits2: Seq<int>,
)
    requires
        lc_wf(terms, pubs.len() as int, wits1.len() as int),
        wits1.len() <= wits2.len(),
        forall|i: int| 0 <= i < wits1.len() ==> wits1[i] == wits2[i],
    ensures
        lc_int(terms, pubs, wits2) == lc_int(terms, pubs, wits1),
    decreases terms.len(),
{
    if terms.len() > 0 {
        assert(var_wf(terms[terms.len() - 1].0, pubs.len() as int, wits1.len() as int));
        lemma_lc_int_stable(terms.drop_last(), pubs, wits1, wits2);
    }
}

/// A sum is also unchanged when both the public and the witness
/// assignments are extended with fresh values.
pub proof fn lemma_lc_int_stable_both(
    terms: Seq<(Variable, int)>,
    pubs1: Seq<int>,
    pubs2: Seq<int>,
    wits1: Seq<int>,
    wits2: Seq<int>,
)
    requires
        lc_wf(terms, pubs1.len() as int, wits1.len() as int),
        pubs1.len() <= pubs2.len(),
        forall|i: int| 0 <= i < pubs1.len() ==> pubs1[i] == pubs2[i],
        wits1.len() <= wits2.len(),
        forall|i: int| 0 <= i < wits1.len() ==> wits1[i] == wits2[i],
    ensures
        lc_int(terms, pubs2, wits2) == lc_int(terms, pubs1, wits1),
    decreases terms.len(),
{
    if terms.len() > 0 {
        assert(var_wf(terms[terms.len() - 1].0, pubs1.len() as int, wits1.len() as int));
        lemma_lc_int_stable_both(terms.drop_last(), pubs1, pubs2, wits1, wits2);
    }
}

/// A combination and its negation cancel modulo the field modulus.
pub proof fn lemma_lc_int_neg(
    neg: Seq<(Variable, int)>,
    s: Seq<(Variable, int)>,
    pubs: Seq<int>,
    wits: Seq<int>,
)
    requires
        neg.len() == s.len(),
        forall|i: int| 0 <= i < s.len() ==> #[trigger] neg[i] == (s[i].0, neg_coeff(s[i].1)),
    ensures
        (lc_int(neg, pubs, wits) + lc_int(s, pubs, wits)) % field_modulus() == 0,
    decreases s.len(),
{
    let m = field_modulus();
    if s.len() == 0 {
        lemma_small_mod(0, m as nat);
    } else {
        let n0 = lc_int(neg.drop_last(), pubs, wits);
        let s0 = lc_int(s.drop_last(), pubs, wits);
        let c = s.last().1;
        let v = var_value(s.last().0, pubs, wits);
        assert(neg.drop_last().len() == s.drop_last().len());
        assert(forall|i: int|
            0 <= i < s.drop_last().len() ==> #[trigger] neg.drop_last()[i] == (
                s.drop_last()[i].0,
                neg_coeff(s.drop_last()[i].1),
            ));
        lemma_lc_int_neg(neg.drop_last(), s.drop_last(), pubs, wits);
        assert(neg.last() == (s.last().0, neg_coeff(c)));
        // (neg_coeff(c) + c) % m == 0
        lemma_add_mod_noop_right(c, m - c, m);
        lemma_mod_self_0(m);
        lemma_small_mod(0, m as nat);
        assert((c + neg_coeff(c)) % m == 0) by {
            assert((c + (m - c) % m) % m == (c + (m - c)) % m);
            assert(c + (m - c) == m);
        }
        // so the added pair of terms contributes a multiple of m
        lemma_mul_mod_noop_left(c + neg_coeff(c), v, m);
        assert(((c + neg_coeff(c)) * v) % m == ((c + neg_coeff(c)) % m * v) % m);
        assert((c + neg_coeff(c)) % m * v == 0);
        lemma_add_mod_noop(n0 + s0, (c + neg_coeff(c)) * v, m);
        assert(lc_int(neg, pubs, wits) + lc_int(s, pubs, wits) == (n0 + s0) + (c + neg_coeff(c))
            * v) by {
            assert(lc_int(neg, pubs, wits) == n0 + neg_coeff(c) * v);
            assert(lc_int(s, pubs, wits) == s0 + c * v);
            assert(neg_coeff(c) * v + c * v == (c + neg_coeff(c)) * v) by (nonlinear_arith);
        }
        assert(((n0 + s0) % m + ((c + neg_coeff(c)) * v) % m) % m == 0) by {
            lemma_small_mod(0, m as nat);
        }
    }
}

/// Two sums are congruent modulo the field modulus exactly when their
/// difference-style concatenation (one plus the negation of the other)
/// reduces to zero.
pub proof fn lemma_diff_zero_iff_equal(x: int, nyx: int, y: int)
    requires
        (nyx + y) % field_modulus() == 0,
    ensures
        ((x + nyx) % field_modulus() == 0) <==> (x % field_modulus() == y % field_modulus()),
{
    let m = field_modulus();
    lemma_add_mod_noop(x, nyx, m);
    lemma_add_mod_noop(nyx, y, m);
    lemma_mod_twice(x, m);
    lemma_mod_twice(y, m);
    lemma_mod_twice(nyx, m);
    if (x + nyx) % m == 0 {
        // x % m == (x + nyx + y) % m == y % m
        lemma_add_mod_noop(x + nyx, y, m);
        assert((x + nyx + y) % m == ((x + nyx) % m + y % m) % m);
        lemma_mod_twice(y, m);
        assert(((x + nyx) % m + y % m) % m == y % m % m);
        lemma_add_mod_noop_right(x, nyx + y, m);
        assert((x + (nyx + y)) % m == (x + (nyx + y) % m) % m);
        assert((x + (nyx + y) % m) % m == x % m);
        assert(x + nyx + y == x + (nyx + y));
    } else {
        if x % m == y % m {
            lemma_add_mod_noop(x, nyx, m);
            assert((x + nyx) % m == (x % m + nyx % m) % m);
            assert((x % m + nyx % m) % m == (y % m + nyx % m) % m);
            lemma_add_mod_noop(y, nyx, m);
            assert((y % m + nyx % m) % m == (y + nyx) % m);
            assert((y + nyx) % m == 0);
            assert(false);
        }
    }
}


/// Adding a negated combination acts as subtraction of the reduced
/// values: the two reductions agree modulo the field modulus.
pub proof fn lemma_plus_neg_mod(x: int, ny: int, y: int, m: int)
    requires
        m > 0,
        (ny + y) % m == 0,
    ensures
        (x + ny) % m == (m + x % m - y % m) % m,
{
    lemma_fundamental_div_mod(x, m);
    lemma_fundamental_div_mod(y, m);
    lemma_fundamental_div_mod(ny + y, m);
    let k = x / m - y / m + (ny + y) / m - 1;
    assert(x + ny == m * k + (m + x % m - y % m)) by (nonlinear_arith)
        requires
            x == m * (x / m) + x % m,
            y == m * (y / m) + y % m,
            ny + y == m * ((ny + y) / m),
            k == x / m - y / m + (ny + y) / m - 1,
    ;
    lemma_mod_multiples_vanish(k, m + x % m - y % m, m);
}

/// For reduced values `a` and `b`, the reduced difference is zero
/// exactly when they are equal.
pub proof fn lemma_sub_zero_iff_equal(a: int, b: int, m: int)
    requires
        0 <= a < m,
        0 <= b < m,
    ensures
        ((m + a - b) % m == 0) <==> (a == b),
{
    if a == b {
        lemma_mod_self_0(m);
    } else if a > b {
        lemma_mod_multiples_vanish(1, a - b, m);
        lemma_small_mod((a - b) as nat, m as nat);
    } else {
        lemma_small_mod((m + a - b) as nat, m as nat);
    }
}

} // verus!
