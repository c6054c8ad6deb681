//! The mixing matrix: a Cauchy matrix over the field, and its product with a
//! vector of field elements or of linear combinations.

use crate::field::{field_add, field_inverse, group_order};
use crate::linear_combination::{scale_terms, LinearCombination, Term};
use crate::round_constants::values;
use crate::scalar::Scalar;
use vstd::arithmetic::div_mod::{lemma_add_mod_noop, lemma_small_mod};
use vstd::prelude::*;

verus! {

/// The entry in row `i` and column `j` of the matrix of width `t`: the
/// inverse of `x_i + y_j`, where `x_i = i` and `y_j = j + t`.
pub open spec fn cauchy_entry(t: nat, i: nat, j: nat) -> nat {
    field_inverse(i + j + t)
}

/// The matrix of width `t`, row by row.
pub open spec fn cauchy_matrix(t: nat) -> Seq<Seq<nat>> {
    Seq::new(t, |i: int| Seq::new(t, |j: int| cauchy_entry(t, i as nat, j as nat)))
}

/// The sum, over the integers, of the first `k` products of an entry of
/// `row` with the entry of `v` at the same place.
pub open spec fn sum_products(row: Seq<nat>, v: Seq<nat>, k: nat) -> nat
    decreases k,
{
    if k == 0 {
        0
    } else {
        sum_products(row, v, (k - 1) as nat) + row[k - 1] * v[k - 1]
    }
}

/// The product of a row with a vector, in the field.
pub open spec fn dot(row: Seq<nat>, v: Seq<nat>) -> nat {
    sum_products(row, v, v.len()) % group_order()
}

/// The product of a matrix with a vector that is no longer than the matrix
/// is wide: entry `i` is the product of row `i` with the vector.
pub open spec fn mix(m: Seq<Seq<nat>>, v: Seq<nat>) -> Seq<nat> {
    Seq::new(v.len(), |i: int| dot(m[i], v))
}

/// The first `k` entries of `v`, each scaled by the entry of `row` at the
/// same place, one after the other.
pub open spec fn scaled_terms(row: Seq<nat>, v: Seq<Seq<Term>>, k: nat) -> Seq<Term>
    decreases k,
{
    if k == 0 {
        Seq::empty()
    } else {
        scaled_terms(row, v, (k - 1) as nat) + scale_terms(v[k - 1], row[k - 1])
    }
}

/// The product of a matrix with a vector of linear combinations: entry `i`
/// holds the terms of every combination, scaled by the entries of row `i`.
pub open spec fn mix_terms(m: Seq<Seq<nat>>, v: Seq<Seq<Term>>) -> Seq<Seq<Term>> {
    Seq::new(v.len(), |i: int| scaled_terms(m[i], v, v.len()))
}

/// The terms of each of a sequence of linear combinations.
pub open spec fn combinations(v: Seq<LinearCombination>) -> Seq<Seq<Term>> {
    v.map_values(|c: LinearCombination| c@)
}

/// A square matrix of field elements that mixes the words of a state.
#[derive(Debug, PartialEq)]
pub struct MDSMatrix {
    rows: Vec<Vec<Scalar>>,
}

impl View for MDSMatrix {
    type V = Seq<Seq<nat>>;

    /// The entries, row by row.
    closed spec fn view(&self) -> Seq<Seq<nat>> {
        self.rows@.map_values(|row: Vec<Scalar>| values(row@))
    }
}

impl MDSMatrix {
    /// The matrix is the Cauchy matrix of its width.
    #[verifier::type_invariant]
    pub open spec fn wf(self) -> bool {
        self@ == cauchy_matrix(self@.len())
    }

    /// The number of rows, which is the number of columns.
    pub open spec fn spec_width(self) -> nat {
        self@.len()
    }

    /// The matrix for states of `t` words.
    pub fn generate(t: usize) -> (r: MDSMatrix)
        ensures
            r@ == cauchy_matrix(t as nat),
    {
        let width = Scalar::from_u64(t as u64);
        let mut rows: Vec<Vec<Scalar>> = Vec::with_capacity(t);
        let mut i: usize = 0;
        while i < t
            invariant
                i <= t,
                width@ == t,
                rows@.len() == i,
                forall|k: int|
                    0 <= k < i ==> values((#[trigger] rows@[k])@) == cauchy_matrix(t as nat)[k],
            decreases t - i,
        {
            let x = Scalar::from_u64(i as u64);
            let mut row: Vec<Scalar> = Vec::with_capacity(t);
            let mut j: usize = 0;
            while j < t
                invariant
                    j <= t,
                    i < t,
                    width@ == t,
                    x@ == i,
                    row@.len() == j,
                    forall|k: int|
                        0 <= k < j ==> (#[trigger] row@[k])@ == cauchy_entry(
                            t as nat,
                            i as nat,
                            k as nat,
                        ),
                decreases t - j,
            {
                let y = Scalar::from_u64(j as u64).add(&width);
                let sum = x.add(&y);
                proof {
                    lemma_small_sum(i as nat, j as nat, t as nat);
                }
                row.push(sum.invert());
                j += 1;
            }
            assert(values(row@) =~= cauchy_matrix(t as nat)[i as int]);
            rows.push(row);
            i += 1;
        }
        assert(rows@.map_values(|row: Vec<Scalar>| values(row@)) =~= cauchy_matrix(t as nat));
        MDSMatrix { rows }
    }

    /// The number of rows, which is the number of columns.
    pub fn width(&self) -> (r: usize)
        ensures
            r == self.spec_width(),
    {
        self.rows.len()
    }

    /// The product of the matrix with a vector of field elements.
    pub fn mul_vector(&self, v: &Vec<Scalar>) -> (r: Vec<Scalar>)
        requires
            v@.len() <= self.spec_width(),
        ensures
            values(r@) == mix(self@, values(v@)),
    {
        proof {
            use_type_invariant(self);
        }
        let n = v.len();
        let ghost vals = values(v@);
        let mut out: Vec<Scalar> = Vec::with_capacity(n);
        let mut i: usize = 0;
        while i < n
            invariant
                i <= n,
                n == v@.len(),
                n <= self.rows@.len(),
                self@ == cauchy_matrix(self@.len()),
                vals == values(v@),
                out@.len() == i,
                forall|k: int| 0 <= k < i ==> (#[trigger] out@[k])@ == dot(self@[k], vals),
            decreases n - i,
        {
            let row = &self.rows[i];
            assert(values(row@) == self@[i as int]);
            assert(row@.len() == self@.len()) by {
                assert(values(row@).len() == cauchy_matrix(self@.len())[i as int].len());
            }
            let mut acc = Scalar::from_u64(0);
            let mut j: usize = 0;
            proof {
                lemma_small_mod(0, group_order());
            }
            while j < n
                invariant
                    j <= n,
                    n == v@.len(),
                    n <= row@.len(),
                    vals == values(v@),
                    acc@ == sum_products(values(row@), vals, j as nat) % group_order(),
                decreases n - j,
            {
                let product = row[j].mul(&v[j]);
                let next = acc.add(&product);
                proof {
                    let s = sum_products(values(row@), vals, j as nat);
                    let p = values(row@)[j as int] * vals[j as int];
                    lemma_add_mod_noop(s as int, p as int, group_order() as int);
                }
                acc = next;
                j += 1;
            }
            out.push(acc);
            i += 1;
        }
        assert(values(out@) =~= mix(self@, vals));
        out
    }

    /// The product of the matrix with a vector of linear combinations.
    pub fn constrain_mul_vector(&self, v: Vec<LinearCombination>) -> (r: Vec<LinearCombination>)
        requires
            v@.len() <= self.spec_width(),
        ensures
            combinations(r@) == mix_terms(self@, combinations(v@)),
    {
        proof {
            use_type_invariant(self);
        }
        let n = v.len();
        let ghost terms = combinations(v@);
        let mut out: Vec<LinearCombination> = Vec::with_capacity(n);
        let mut i: usize = 0;
        while i < n
            invariant
                i <= n,
                n == v@.len(),
                n <= self.rows@.len(),
                self@ == cauchy_matrix(self@.len()),
                terms == combinations(v@),
                out@.len() == i,
                forall|k: int|
                    0 <= k < i ==> (#[trigger] out@[k])@ == scaled_terms(self@[k], terms, n as nat),
            decreases n - i,
        {
            let row = &self.rows[i];
            assert(values(row@) == self@[i as int]);
            assert(row@.len() == self@.len()) by {
                assert(values(row@).len() == cauchy_matrix(self@.len())[i as int].len());
            }
            let mut acc = LinearCombination::new();
            let mut j: usize = 0;
            while j < n
                invariant
                    j <= n,
                    n == v@.len(),
                    n <= row@.len(),
                    terms == combinations(v@),
                    acc@ == scaled_terms(values(row@), terms, j as nat),
                decreases n - j,
            {
                let scaled = v[j].scale(&row[j]);
                acc = acc.add(&scaled);
                j += 1;
            }
            out.push(acc);
            i += 1;
        }
        assert(combinations(out@) =~= mix_terms(self@, terms));
        out
    }
}

/// The sum that a Cauchy entry inverts is computed without reduction, and is
/// not zero.
proof fn lemma_small_sum(i: nat, j: nat, t: nat)
    requires
        i < t,
        j < t,
        t <= u64::MAX,
    ensures
        field_add(i, field_add(j, t)) == i + j + t,
        i + j + t != 0,
{
    lemma_small_mod(j + t, group_order());
    lemma_small_mod(i + j + t, group_order());
}

} // verus!
