//! Linear combinations of circuit variables, and what they evaluate to.

use crate::field::{field_mul, group_order};
use crate::scalar::Scalar;
use bulletproofs::r1cs::Variable;
use vstd::prelude::*;

verus! {

/// `Variable` of `bulletproofs`: a committed input, the left, right or
/// output wire of a multiplication gate, each with its index, or the
/// constant one. Nothing is claimed of it: its variants are read from the
/// crate.
#[verifier::external_type_specification]
pub struct ExVariable(bulletproofs::r1cs::Variable);

/// A term: a variable and the field element it is multiplied by.
pub type Term = (Variable, nat);

/// A value for every variable of a circuit.
pub type Assignment = spec_fn(Variable) -> nat;

/// The terms with every coefficient multiplied by `factor`.
pub open spec fn scale_terms(terms: Seq<Term>, factor: nat) -> Seq<Term> {
    terms.map_values(|t: Term| (t.0, field_mul(t.1, factor)))
}

/// The sum, over the integers, of each coefficient times the value of its
/// variable.
pub open spec fn terms_sum(terms: Seq<Term>, a: Assignment) -> nat
    decreases terms.len(),
{
    if terms.len() == 0 {
        0
    } else {
        terms_sum(terms.drop_last(), a) + terms.last().1 * a(terms.last().0)
    }
}

/// The field element that the terms evaluate to under an assignment.
pub open spec fn terms_eval(terms: Seq<Term>, a: Assignment) -> nat {
    terms_sum(terms, a) % group_order()
}

/// A weighted sum of circuit variables.
#[derive(Debug, PartialEq)]
pub struct LinearCombination {
    terms: Vec<(Variable, Scalar)>,
}

impl View for LinearCombination {
    type V = Seq<Term>;

    /// The terms in order, each coefficient as the number it stands for.
    closed spec fn view(&self) -> Seq<Term> {
        self.terms@.map_values(|t: (Variable, Scalar)| (t.0, t.1@))
    }
}

impl Clone for LinearCombination {
    /// A combination with the same terms.
    fn clone(&self) -> (r: Self)
        ensures
            r@ == self@,
    {
        let mut terms: Vec<(Variable, Scalar)> = Vec::with_capacity(self.terms.len());
        let mut i: usize = 0;
        while i < self.terms.len()
            invariant
                i <= self.terms.len(),
                terms@ == self.terms@.subrange(0, i as int),
            decreases self.terms.len() - i,
        {
            terms.push(self.terms[i]);
            i += 1;
        }
        assert(terms@ =~= self.terms@);
        LinearCombination { terms }
    }
}

impl LinearCombination {
    /// The combination without terms, which evaluates to zero.
    pub fn new() -> (r: LinearCombination)
        ensures
            r@ == Seq::<Term>::empty(),
    {
        let r = LinearCombination { terms: Vec::new() };
        assert(r@ =~= Seq::<Term>::empty());
        r
    }

    /// The combination that is one variable.
    pub fn from_variable(v: Variable) -> (r: LinearCombination)
        ensures
            r@ == seq![(v, 1nat)],
    {
        let mut terms: Vec<(Variable, Scalar)> = Vec::new();
        terms.push((v, Scalar::from_u64(1)));
        let r = LinearCombination { terms };
        assert(r@ =~= seq![(v, 1nat)]);
        r
    }

    /// The combination that is a constant: the scalar times the variable
    /// that stands for one.
    pub fn from_scalar(s: Scalar) -> (r: LinearCombination)
        ensures
            r@ == seq![(Variable::One(), s@)],
    {
        let mut terms: Vec<(Variable, Scalar)> = Vec::new();
        terms.push((Variable::One(), s));
        let r = LinearCombination { terms };
        assert(r@ =~= seq![(Variable::One(), s@)]);
        r
    }

    /// The number of terms.
    pub fn len(&self) -> (r: usize)
        ensures
            r == self@.len(),
    {
        self.terms.len()
    }

    /// The term at a position.
    pub fn term(&self, i: usize) -> (r: (Variable, Scalar))
        requires
            i < self@.len(),
        ensures
            (r.0, r.1@) == self@[i as int],
    {
        self.terms[i]
    }

    /// The sum of two combinations: the terms of the first, then those of
    /// the second.
    pub fn add(&self, other: &LinearCombination) -> (r: LinearCombination)
        ensures
            r@ == self@ + other@,
    {
        let mut terms: Vec<(Variable, Scalar)> = Vec::new();
        let mut i: usize = 0;
        while i < self.terms.len()
            invariant
                i <= self.terms.len(),
                terms@ == self.terms@.subrange(0, i as int),
            decreases self.terms.len() - i,
        {
            terms.push(self.terms[i]);
            i += 1;
        }
        let mut j: usize = 0;
        while j < other.terms.len()
            invariant
                j <= other.terms.len(),
                terms@ == self.terms@ + other.terms@.subrange(0, j as int),
            decreases other.terms.len() - j,
        {
            terms.push(other.terms[j]);
            j += 1;
        }
        let r = LinearCombination { terms };
        assert(r@ =~= self@ + other@);
        r
    }

    /// The combination with every coefficient multiplied by `factor`.
    pub fn scale(&self, factor: &Scalar) -> (r: LinearCombination)
        ensures
            r@ == scale_terms(self@, factor@),
    {
        let mut terms: Vec<(Variable, Scalar)> = Vec::new();
        let mut i: usize = 0;
        while i < self.terms.len()
            invariant
                i <= self.terms.len(),
                terms@.len() == i,
                forall|k: int|
                    0 <= k < i ==> (#[trigger] terms@[k]).0 == self.terms@[k].0 && terms@[k].1@
                        == field_mul(self.terms@[k].1@, factor@),
            decreases self.terms.len() - i,
        {
            let t = self.terms[i];
            terms.push((t.0, t.1.mul(factor)));
            i += 1;
        }
        let r = LinearCombination { terms };
        assert(r@ =~= scale_terms(self@, factor@));
        r
    }
}

} // verus!
