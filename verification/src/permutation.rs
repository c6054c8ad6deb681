//! The permutation: an input buffer of bounded width, and the round schedule
//! applied to it, on field elements or as constraints.

use crate::circuit::{Gate, GateWires};
use crate::constraints::{
    add_key_terms, are_rounds, constant_terms, constrained_rounds, gate_fits, gates_in_round,
    gates_in_rounds, is_round_prefix, lemma_gates_grow, lemma_no_words, lemma_prefix_grows,
    lemma_prefix_is_full_round, lemma_prefix_is_partial_round, lemma_rounds_keep, raised_all,
    raised_first, s_box_operands, s_box_result, variable_terms, variables_terms, wires_from,
};
use crate::errors::PermError;
use crate::field::{field_add, lemma_quintic_by_products, quintic};
use crate::linear_combination::{LinearCombination, Term};
use crate::mds_matrix::{cauchy_matrix, combinations, mix_terms, MDSMatrix};
use crate::round_constants::{generated_constants, values, RoundConstants, RoundConstantsIterator};
use crate::scalar::{hash_to_field, Scalar};
use crate::schedule::{
    add_keys, full_round, is_full_round, partial_round, permutation, rounds, substitute_all,
    substitute_first,
};
use bulletproofs::r1cs::Variable;
use vstd::prelude::*;

verus! {

/// A sponge permutation with its input buffer, its round constants and its
/// mixing matrix.
#[derive(Debug)]
pub struct Permutation {
    t: usize,
    full_rounds: usize,
    partial_rounds: usize,
    data: Vec<Scalar>,
    constants: RoundConstants,
    matrix: MDSMatrix,
}

impl Default for Permutation {
    /// The permutation of width 9 with 8 full and 59 partial rounds, and an
    /// empty buffer.
    fn default() -> (r: Self)
        ensures
            r.wf(),
            r.width() == 9,
            r.full_rounds() == 8,
            r.partial_rounds() == 59,
            r.words() == Seq::<Scalar>::empty(),
    {
        let width: usize = 9;
        let full_rounds: usize = 8;
        let partial_rounds: usize = 59;
        Permutation {
            t: width,
            full_rounds,
            partial_rounds,
            data: Vec::with_capacity(width),
            constants: RoundConstants::generate(full_rounds, partial_rounds, width),
            matrix: MDSMatrix::generate(width),
        }
    }
}

impl Permutation {
    /// The number of words that the permutation works on.
    pub closed spec fn width(self) -> nat {
        self.t as nat
    }

    /// The number of full rounds, both halves together.
    pub closed spec fn full_rounds(self) -> nat {
        self.full_rounds as nat
    }

    /// The number of partial rounds.
    pub closed spec fn partial_rounds(self) -> nat {
        self.partial_rounds as nat
    }

    /// The scalars in the input buffer, in the order in which they came.
    pub closed spec fn words(self) -> Seq<Scalar> {
        self.data@
    }

    /// The field elements in the input buffer.
    pub open spec fn buffer(self) -> Seq<nat> {
        values(self.words())
    }

    /// The table of round constants.
    pub closed spec fn constants(self) -> Seq<nat> {
        self.constants@
    }

    /// The mixing matrix.
    pub closed spec fn matrix(self) -> Seq<Seq<nat>> {
        self.matrix@
    }

    /// Whether `count` more words fit into the buffer.
    pub open spec fn accepts(self, count: nat) -> bool {
        self.words().len() + count <= self.width()
    }

    /// What `width_left` gives: how many more words fit into the buffer.
    pub open spec fn spec_width_left(self) -> nat {
        (self.width() - self.words().len()) as nat
    }

    /// The other permutation has the same width, the same numbers of rounds
    /// and the same tables.
    pub open spec fn same_configuration(self, other: Permutation) -> bool {
        &&& other.width() == self.width()
        &&& other.full_rounds() == self.full_rounds()
        &&& other.partial_rounds() == self.partial_rounds()
        &&& other.constants() == self.constants()
        &&& other.matrix() == self.matrix()
    }

    /// `after` is this permutation with `scalars` appended to the buffer.
    pub open spec fn takes(self, scalars: Seq<Scalar>, after: Permutation) -> bool {
        &&& after.wf()
        &&& self.same_configuration(after)
        &&& after.words() == self.words() + scalars
    }

    /// `after` is this permutation with the buffer as it is.
    pub open spec fn keeps(self, after: Permutation) -> bool {
        &&& after.wf()
        &&& self.same_configuration(after)
        &&& after.words() == self.words()
    }

    /// `after` is this permutation with an empty buffer.
    pub open spec fn cleared(self, after: Permutation) -> bool {
        &&& after.wf()
        &&& self.same_configuration(after)
        &&& after.words() == Seq::<Scalar>::empty()
    }

    /// How many constants the whole schedule needs on a full buffer.
    pub open spec fn table_len(self) -> nat {
        (self.full_rounds() + self.partial_rounds()) * self.width()
    }

    /// The buffer holds no more than `width` words, the number of full
    /// rounds is even, and the tables are those generated for the
    /// configuration.
    pub open spec fn wf(self) -> bool {
        &&& self.words().len() <= self.width()
        &&& self.full_rounds() % 2 == 0
        &&& self.table_len() <= usize::MAX
        &&& self.constants() == generated_constants(self.table_len())
        &&& self.matrix() == cauchy_matrix(self.width())
    }

    /// The number of full rounds before the partial ones, which is also the
    /// number behind them.
    pub open spec fn half(self) -> nat {
        self.full_rounds() / 2
    }

    /// The number of rounds of the schedule.
    pub open spec fn total_rounds(self) -> nat {
        self.half() + self.partial_rounds() + self.half()
    }

    /// Whether the table has a constant for each of `n` words in each round.
    pub open spec fn constants_suffice(self, n: nat) -> bool {
        n * self.total_rounds() <= self.table_len()
    }

    /// How many gates `constrain_result` asks for on `n` words.
    pub open spec fn gate_count(self, n: nat) -> nat {
        gates_in_rounds(n, self.half(), self.partial_rounds(), self.total_rounds())
    }

    /// Whether the gates from `at` on are those that `constrain_result` asks
    /// for on `words`.
    pub open spec fn are_constraints(
        self,
        gates: Seq<Gate>,
        at: int,
        words: Seq<Variable>,
    ) -> bool {
        are_rounds(
            gates,
            at,
            variables_terms(words),
            self.constants(),
            self.matrix(),
            self.half(),
            self.partial_rounds(),
            self.total_rounds(),
        )
    }

    /// What `constrain_result` gives on `words`, where its gates start at
    /// `at`.
    pub open spec fn spec_constrain_result(
        self,
        gates: Seq<Gate>,
        at: int,
        words: Seq<Variable>,
    ) -> Seq<Seq<Term>> {
        constrained_rounds(
            gates,
            at,
            variables_terms(words),
            self.constants(),
            self.matrix(),
            self.half(),
            self.partial_rounds(),
            self.total_rounds(),
        )
    }

    /// What `result` gives: the permutation of the buffer.
    pub open spec fn spec_result(self) -> Seq<nat> {
        permutation(
            self.buffer(),
            self.constants(),
            self.matrix(),
            self.full_rounds(),
            self.partial_rounds(),
        )
    }

    /// A permutation on `t` words with the given numbers of rounds and an
    /// empty buffer; refused where the number of full rounds is odd.
    pub fn new(t: usize, full_rounds: usize, partial_rounds: usize) -> (r: Result<
        Permutation,
        PermError,
    >)
        requires
            full_rounds % 2 == 0 ==> (full_rounds + partial_rounds) * t <= usize::MAX,
        ensures
            r is Err <==> full_rounds % 2 != 0,
            match r {
                Ok(p) => {
                    &&& full_rounds % 2 == 0
                    &&& p.wf()
                    &&& p.width() == t
                    &&& p.full_rounds() == full_rounds
                    &&& p.partial_rounds() == partial_rounds
                    &&& p.words() == Seq::<Scalar>::empty()
                },
                Err(e) => e == PermError::FullRoundsOdd && full_rounds % 2 == 1,
            },
    {
        if full_rounds % 2 != 0 {
            return Err(PermError::FullRoundsOdd);
        }
        let perm = Permutation {
            t,
            full_rounds,
            partial_rounds,
            data: Vec::with_capacity(t),
            constants: RoundConstants::generate(full_rounds, partial_rounds, t),
            matrix: MDSMatrix::generate(t),
        };
        Ok(perm)
    }

    /// Appends a batch to the buffer, or none of it where it does not fit.
    pub fn inputs(&mut self, scalars: Vec<Scalar>) -> (r: Result<(), PermError>)
        requires
            old(self).wf(),
        ensures
            match r {
                Ok(_) => old(self).accepts(scalars@.len()) && old(self).takes(
                    scalars@,
                    *final(self),
                ),
                Err(e) => e == PermError::InputFull && !old(self).accepts(scalars@.len()) && old(
                    self,
                ).keeps(*final(self)),
            },
    {
        let amount_to_add = scalars.len();
        let maximum_width = self.t;
        let current_width = self.data.len();
        if amount_to_add > maximum_width - current_width {
            return Err(PermError::InputFull);
        }
        let mut scalars = scalars;
        self.data.append(&mut scalars);
        Ok(())
    }

    /// Empties the buffer.
    pub fn reset(&mut self)
        requires
            old(self).wf(),
        ensures
            old(self).cleared(*final(self)),
    {
        self.data.clear()
    }

    /// Whether the buffer holds `width` words.
    pub fn input_full(&self) -> (r: bool)
        requires
            self.wf(),
        ensures
            r == !self.accepts(1),
    {
        self.data.len() == self.t
    }

    /// How many more words the buffer takes.
    pub fn width_left(&self) -> (r: usize)
        requires
            self.wf(),
        ensures
            r == self.spec_width_left(),
    {
        self.t - self.data.len()
    }

    /// Appends the field element that `bytes` is hashed to, unless the
    /// buffer is full.
    pub fn input_bytes(&mut self, bytes: &[u8]) -> (r: Result<(), PermError>)
        requires
            old(self).wf(),
        ensures
            match r {
                Ok(_) => {
                    &&& old(self).accepts(1)
                    &&& old(self).takes(seq![final(self).words().last()], *final(self))
                    &&& final(self).words().last()@ == hash_to_field(bytes@)
                },
                Err(e) => e == PermError::InputFull && !old(self).accepts(1) && old(self).keeps(
                    *final(self),
                ),
            },
    {
        // Map arbitrary bytes to a field element
        let scalar = Scalar::hash_from_bytes(bytes);
        self.input(scalar)
    }

    /// Appends one field element to the buffer, unless it is full.
    pub fn input(&mut self, scalar: Scalar) -> (r: Result<(), PermError>)
        requires
            old(self).wf(),
        ensures
            match r {
                Ok(_) => old(self).accepts(1) && old(self).takes(seq![scalar], *final(self)),
                Err(e) => e == PermError::InputFull && !old(self).accepts(1) && old(self).keeps(
                    *final(self),
                ),
            },
    {
        if self.input_full() {
            return Err(PermError::InputFull);
        }
        self.data.push(scalar);
        assert(self.data@ =~= old(self).data@ + seq![scalar]);
        Ok(())
    }

    /// After `i` accepted inputs on an empty buffer, `i` words are in it.
    proof fn lemma_accepted_inputs(states: Seq<Permutation>, scalars: Seq<Scalar>, i: nat)
        requires
            states.len() == scalars.len() + 1,
            states[0].wf(),
            states[0].words().len() == 0,
            forall|k: int|
                0 <= k < scalars.len() ==> (#[trigger] states[k]).accepts(1) && states[k].takes(
                    seq![scalars[k]],
                    states[k + 1],
                ),
            i <= scalars.len(),
        ensures
            states[i as int].wf(),
            states[0].same_configuration(states[i as int]),
            states[i as int].words().len() == i,
        decreases i,
    {
        if i > 0 {
            Self::lemma_accepted_inputs(states, scalars, (i - 1) as nat);
            assert(states[i - 1].takes(seq![scalars[i - 1]], states[i - 1 + 1]));
        }
    }

    /// The buffer takes exactly `width` words: after `i` accepted inputs on
    /// an empty buffer, room for `width - i` is left; the next input is
    /// accepted where `i` is less than the width and refused where it is the
    /// width; and no more than `width` inputs are accepted.
    pub proof fn lemma_buffer_capacity(states: Seq<Permutation>, scalars: Seq<Scalar>)
        requires
            states.len() == scalars.len() + 1,
            states[0].wf(),
            states[0].words().len() == 0,
            forall|k: int|
                0 <= k < scalars.len() ==> (#[trigger] states[k]).accepts(1) && states[k].takes(
                    seq![scalars[k]],
                    states[k + 1],
                ),
        ensures
            scalars.len() <= states[0].width(),
            forall|i: int|
                0 <= i <= scalars.len() ==> {
                    &&& (#[trigger] states[i]).spec_width_left() == states[0].width() - i
                    &&& (states[i].spec_width_left() == 0 <==> i == states[0].width())
                    &&& (states[i].accepts(1) <==> i < states[0].width())
                },
    {
        assert forall|i: int| 0 <= i <= scalars.len() implies {
            &&& (#[trigger] states[i]).spec_width_left() == states[0].width() - i
            &&& (states[i].spec_width_left() == 0 <==> i == states[0].width())
            &&& (states[i].accepts(1) <==> i < states[0].width())
            &&& i <= states[0].width()
        } by {
            Self::lemma_accepted_inputs(states, scalars, i as nat);
        }
        assert(states[scalars.len() as int].spec_width_left() == states[0].width()
            - scalars.len());
    }

    /// After a reset the whole width is free again, and a batch of `width`
    /// words is accepted.
    pub proof fn lemma_reset_frees_buffer(before: Permutation, after: Permutation)
        requires
            before.wf(),
            before.cleared(after),
        ensures
            after.spec_width_left() == before.width(),
            after.accepts(before.width()),
    {
    }

    /// Two permutations of one configuration hold the same round constants,
    /// one for each word of each round, and the same square matrix, and on
    /// equal buffers they give equal results, on field elements and as
    /// constraints.
    pub proof fn lemma_deterministic(p: Permutation, q: Permutation)
        requires
            p.wf(),
            q.wf(),
            p.width() == q.width(),
            p.full_rounds() == q.full_rounds(),
            p.partial_rounds() == q.partial_rounds(),
        ensures
            p.constants() == q.constants(),
            p.matrix() == q.matrix(),
            p.constants().len() == p.width() * (p.full_rounds() + p.partial_rounds()),
            p.matrix().len() == p.width(),
            forall|i: int| 0 <= i < p.width() ==> (#[trigger] p.matrix()[i]).len() == p.width(),
            p.buffer() == q.buffer() ==> p.spec_result() == q.spec_result(),
            forall|gates: Seq<Gate>, at: int, words: Seq<Variable>|
                #[trigger] p.spec_constrain_result(gates, at, words) == q.spec_constrain_result(
                    gates,
                    at,
                    words,
                ),
    {
    }
}

impl Permutation {
    /// The fifth power of a field element, by four multiplications.
    pub fn quintic_s_box(scalar: &Scalar) -> (r: Scalar)
        ensures
            r@ == quintic(scalar@),
    {
        let square = scalar.mul(scalar);
        let cube = square.mul(scalar);
        let fourth = cube.mul(scalar);
        let fifth = fourth.mul(scalar);
        proof {
            lemma_quintic_by_products(scalar@);
        }
        fifth
    }

    /// Adds the next constants to the words, one to each word in order;
    /// fails where the cursor has fewer constants left than there are words.
    pub fn add_round_key(
        &self,
        constants: &mut RoundConstantsIterator,
        words: Vec<Scalar>,
    ) -> (r: Result<Vec<Scalar>, PermError>)
        ensures
            final(constants).table() == old(constants).table(),
            match r {
                Ok(keyed) => {
                    &&& keyed@.len() == words@.len()
                    &&& words@.len() <= old(constants).remaining()
                    &&& final(constants).position() == old(constants).position() + words@.len()
                    &&& values(keyed@) == add_keys(
                        values(words@),
                        old(constants).table(),
                        old(constants).position(),
                    )
                },
                Err(e) => {
                    &&& e == PermError::NoMoreConstants
                    &&& words@.len() > old(constants).remaining()
                    &&& final(constants).position() == old(constants).table().len()
                },
            },
    {
        let ghost start = constants.position();
        let ghost table = constants.table();
        proof {
            use_type_invariant(&*constants);
        }
        let mut keyed: Vec<Scalar> = Vec::with_capacity(words.len());
        let mut i: usize = 0;
        while i < words.len()
            invariant
                i <= words@.len(),
                start == old(constants).position(),
                table == old(constants).table(),
                constants.table() == table,
                constants.position() == start + i,
                start + i <= table.len(),
                keyed@.len() == i,
                forall|k: int|
                    0 <= k < i ==> (#[trigger] keyed@[k])@ == field_add(
                        words@[k]@,
                        table[start + k],
                    ),
            decreases words@.len() - i,
        {
            match constants.next() {
                Some(c) => {
                    keyed.push(words[i].add(&c));
                },
                None => {
                    return Err(PermError::NoMoreConstants);
                },
            }
            i += 1;
        }
        assert(values(keyed@) =~= add_keys(values(words@), table, start));
        Ok(keyed)
    }

    /// A full round on the words, with the next constants.
    pub fn apply_full_round(
        &self,
        constants: &mut RoundConstantsIterator,
        words: Vec<Scalar>,
    ) -> (r: Result<Vec<Scalar>, PermError>)
        requires
            self.wf(),
            words@.len() <= self.width(),
        ensures
            final(constants).table() == old(constants).table(),
            match r {
                Ok(mixed) => {
                    &&& mixed@.len() == words@.len()
                    &&& words@.len() <= old(constants).remaining()
                    &&& final(constants).position() == old(constants).position() + words@.len()
                    &&& values(mixed@) == full_round(
                        values(words@),
                        old(constants).table(),
                        old(constants).position(),
                        self.matrix(),
                    )
                },
                Err(e) => {
                    &&& e == PermError::NoMoreConstants
                    &&& words@.len() > old(constants).remaining()
                    &&& final(constants).position() == old(constants).table().len()
                },
            },
    {
        let keyed = match self.add_round_key(constants, words) {
            Ok(keyed) => keyed,
            Err(e) => {
                return Err(e);
            },
        };
        let mut quintic_words: Vec<Scalar> = Vec::with_capacity(keyed.len());
        let mut i: usize = 0;
        while i < keyed.len()
            invariant
                i <= keyed@.len(),
                quintic_words@.len() == i,
                forall|k: int|
                    0 <= k < i ==> (#[trigger] quintic_words@[k])@ == quintic(keyed@[k]@),
            decreases keyed@.len() - i,
        {
            quintic_words.push(Self::quintic_s_box(&keyed[i]));
            i += 1;
        }
        assert(values(quintic_words@) =~= substitute_all(values(keyed@)));
        let mixed = self.matrix.mul_vector(&quintic_words);
        assert(values(mixed@).len() == words@.len());
        Ok(mixed)
    }

    /// A partial round on the words, with the next constants.
    pub fn apply_partial_round(
        &self,
        constants: &mut RoundConstantsIterator,
        words: Vec<Scalar>,
    ) -> (r: Result<Vec<Scalar>, PermError>)
        requires
            self.wf(),
            words@.len() <= self.width(),
        ensures
            final(constants).table() == old(constants).table(),
            match r {
                Ok(mixed) => {
                    &&& mixed@.len() == words@.len()
                    &&& words@.len() <= old(constants).remaining()
                    &&& final(constants).position() == old(constants).position() + words@.len()
                    &&& values(mixed@) == partial_round(
                        values(words@),
                        old(constants).table(),
                        old(constants).position(),
                        self.matrix(),
                    )
                },
                Err(e) => {
                    &&& e == PermError::NoMoreConstants
                    &&& words@.len() > old(constants).remaining()
                    &&& final(constants).position() == old(constants).table().len()
                },
            },
    {
        let mut new_words = match self.add_round_key(constants, words) {
            Ok(keyed) => keyed,
            Err(e) => {
                return Err(e);
            },
        };
        let ghost keyed = values(new_words@);
        if new_words.len() > 0 {
            let first = Self::quintic_s_box(&new_words[0]);
            new_words.set(0, first);
        }
        assert(values(new_words@) =~= substitute_first(keyed));
        let mixed = self.matrix.mul_vector(&new_words);
        assert(values(mixed@).len() == words@.len());
        Ok(mixed)
    }

    /// The permutation of the buffer, which stays as it is.
    pub fn result(&self) -> (r: Result<Vec<Scalar>, PermError>)
        requires
            self.wf(),
        ensures
            r is Ok,
            values(r->Ok_0@) == self.spec_result(),
            r->Ok_0@.len() == self.words().len(),
    {
        let mut constants_iter = self.constants.iter();
        let mut new_words: Vec<Scalar> = Self::copy_words(&self.data);
        let half = self.full_rounds / 2;
        let ghost n = self.data@.len();
        let ghost start = values(self.data@);

        // Apply R_f full rounds
        let mut i: usize = 0;
        while i < half
            invariant
                self.wf(),
                half == self.full_rounds / 2,
                i <= half,
                n == self.data@.len(),
                start == values(self.data@),
                new_words@.len() == n,
                constants_iter.table() == self.constants@,
                constants_iter.position() == i * n,
                values(new_words@) == rounds(
                    start,
                    self.constants@,
                    self.matrix@,
                    half as nat,
                    self.partial_rounds as nat,
                    i as nat,
                ),
            decreases half - i,
        {
            proof {
                self.lemma_constants_suffice(i as nat);
            }
            new_words = match self.apply_full_round(&mut constants_iter, new_words) {
                Ok(words) => words,
                Err(e) => {
                    return Err(e);
                },
            };
            proof {
                assert((i + 1) * n == i * n + n) by (nonlinear_arith);
            }
            i += 1;
        }

        // Apply R_P partial rounds
        let mut j: usize = 0;
        while j < self.partial_rounds
            invariant
                self.wf(),
                half == self.full_rounds / 2,
                j <= self.partial_rounds,
                n == self.data@.len(),
                start == values(self.data@),
                new_words@.len() == n,
                constants_iter.table() == self.constants@,
                constants_iter.position() == (half + j) * n,
                values(new_words@) == rounds(
                    start,
                    self.constants@,
                    self.matrix@,
                    half as nat,
                    self.partial_rounds as nat,
                    (half + j) as nat,
                ),
            decreases self.partial_rounds - j,
        {
            proof {
                self.lemma_constants_suffice((half + j) as nat);
            }
            new_words = match self.apply_partial_round(&mut constants_iter, new_words) {
                Ok(words) => words,
                Err(e) => {
                    return Err(e);
                },
            };
            proof {
                assert((half + j + 1) * n == (half + j) * n + n) by (nonlinear_arith);
            }
            j += 1;
        }

        // Apply R_f full rounds
        let mut k: usize = 0;
        while k < half
            invariant
                self.wf(),
                half == self.full_rounds / 2,
                k <= half,
                n == self.data@.len(),
                start == values(self.data@),
                new_words@.len() == n,
                constants_iter.table() == self.constants@,
                constants_iter.position() == (half + self.partial_rounds + k) * n,
                values(new_words@) == rounds(
                    start,
                    self.constants@,
                    self.matrix@,
                    half as nat,
                    self.partial_rounds as nat,
                    (half + self.partial_rounds + k) as nat,
                ),
            decreases half - k,
        {
            proof {
                self.lemma_constants_suffice((half + self.partial_rounds + k) as nat);
            }
            new_words = match self.apply_full_round(&mut constants_iter, new_words) {
                Ok(words) => words,
                Err(e) => {
                    return Err(e);
                },
            };
            proof {
                assert((half + self.partial_rounds + k + 1) * n == (half + self.partial_rounds + k)
                    * n + n) by (nonlinear_arith);
            }
            k += 1;
        }

        Ok(new_words)
    }

    /// A copy of the words.
    fn copy_words(words: &Vec<Scalar>) -> (r: Vec<Scalar>)
        ensures
            r@ == words@,
    {
        let mut copy: Vec<Scalar> = Vec::with_capacity(words.len());
        let mut i: usize = 0;
        while i < words.len()
            invariant
                i <= words@.len(),
                copy@ == words@.subrange(0, i as int),
            decreases words@.len() - i,
        {
            copy.push(words[i]);
            i += 1;
        }
        assert(copy@ =~= words@);
        copy
    }

    /// The table has constants for the round at `index` on as many words as
    /// the buffer holds, after `index` such rounds.
    proof fn lemma_constants_suffice(self, index: nat)
        requires
            self.wf(),
            index < self.full_rounds() + self.partial_rounds(),
        ensures
            index * self.words().len() + self.words().len() <= self.constants().len(),
    {
        let n = self.words().len();
        let t = self.width();
        let total = self.full_rounds() + self.partial_rounds();
        assert(index * n + n <= total * t) by (nonlinear_arith)
            requires
                index < total,
                n <= t,
        ;
    }
}

impl Permutation {
    /// The operands of the next gate that the fifth power of a linear
    /// combination asks for, after `answered` of its three gates, whose wires stand
    /// in `wires` from `at` on: the combination twice for the square; the
    /// output of the first gate twice for the square of the square; the
    /// output of the second gate and the left wire of the first, which is
    /// bound to the combination, for the fifth power.
    pub fn constrain_quintic_s_box(
        lc: &LinearCombination,
        wires: &Vec<GateWires>,
        at: usize,
        answered: usize,
    ) -> (r: (LinearCombination, LinearCombination))
        requires
            answered < 3,
            at + answered <= wires@.len(),
        ensures
            (r.0@, r.1@) == s_box_operands(lc@, wires@, at as int, answered as int),
    {
        let _ = wires.len();
        if answered == 0 {
            (lc.clone(), lc.clone())
        } else if answered == 1 {
            let square = wires[at].2;
            (LinearCombination::from_variable(square), LinearCombination::from_variable(square))
        } else {
            let quartic = wires[at + 1].2;
            let lc_wire = wires[at].0;
            (LinearCombination::from_variable(quartic), LinearCombination::from_variable(lc_wire))
        }
    }

    /// Adds the next constants to the words, one to each word in order, each
    /// as a constant term; fails where the cursor has fewer constants left
    /// than there are words.
    pub fn constrain_add_round_key(
        &self,
        constants: &mut RoundConstantsIterator,
        words: Vec<LinearCombination>,
    ) -> (r: Result<Vec<LinearCombination>, PermError>)
        ensures
            final(constants).table() == old(constants).table(),
            match r {
                Ok(keyed) => {
                    &&& keyed@.len() == words@.len()
                    &&& words@.len() <= old(constants).remaining()
                    &&& final(constants).position() == old(constants).position() + words@.len()
                    &&& combinations(keyed@) == add_key_terms(
                        combinations(words@),
                        old(constants).table(),
                        old(constants).position(),
                    )
                },
                Err(e) => {
                    &&& e == PermError::NoMoreConstants
                    &&& words@.len() > old(constants).remaining()
                    &&& final(constants).position() == old(constants).table().len()
                },
            },
    {
        let ghost start = constants.position();
        let ghost table = constants.table();
        proof {
            use_type_invariant(&*constants);
        }
        let mut keyed: Vec<LinearCombination> = Vec::with_capacity(words.len());
        let mut i: usize = 0;
        while i < words.len()
            invariant
                i <= words@.len(),
                start == old(constants).position(),
                table == old(constants).table(),
                constants.table() == table,
                constants.position() == start + i,
                start + i <= table.len(),
                keyed@.len() == i,
                forall|k: int|
                    0 <= k < i ==> (#[trigger] keyed@[k])@ == words@[k]@ + constant_terms(
                        table[start + k],
                    ),
            decreases words@.len() - i,
        {
            match constants.next() {
                Some(c) => {
                    // First get the constant needed and convert it to a linear combination
                    let c_lc = LinearCombination::from_scalar(c);
                    // Return words + constants
                    keyed.push(words[i].add(&c_lc));
                },
                None => {
                    return Err(PermError::NoMoreConstants);
                },
            }
            i += 1;
        }
        assert(combinations(keyed@) =~= add_key_terms(combinations(words@), table, start));
        Ok(keyed)
    }

    /// The end of a full round on the keyed words: what the substitution of
    /// each word handed back, which is the output wire of its third gate,
    /// times the mixing matrix. `wires` holds the wires of the gates of the
    /// round, three for each word.
    pub fn constrain_apply_full_round(
        &self,
        keyed: Vec<LinearCombination>,
        wires: &Vec<GateWires>,
    ) -> (mixed: Vec<LinearCombination>)
        requires
            self.wf(),
            keyed@.len() <= self.width(),
            wires@.len() == 3 * keyed@.len(),
        ensures
            mixed@.len() == keyed@.len(),
            combinations(mixed@) == mix_terms(self.matrix(), raised_all(wires@, keyed@.len())),
    {
        let mut quintic_words: Vec<LinearCombination> = Vec::with_capacity(keyed.len());
        let _ = wires.len();
        let mut i: usize = 0;
        while i < keyed.len()
            invariant
                i <= keyed@.len(),
                wires@.len() == 3 * keyed@.len(),
                wires@.len() <= usize::MAX,
                quintic_words@.len() == i,
                forall|k: int|
                    0 <= k < i ==> (#[trigger] quintic_words@[k])@ == s_box_result(wires@, 3 * k),
            decreases keyed@.len() - i,
        {
            let quintic = wires[3 * i + 2].2;
            quintic_words.push(LinearCombination::from_variable(quintic));
            i += 1;
        }
        assert(combinations(quintic_words@) =~= raised_all(wires@, keyed@.len()));
        // Multiply this result by the MDS matrix
        let mixed = self.matrix.constrain_mul_vector(quintic_words);
        assert(combinations(mixed@).len() == keyed@.len());
        mixed
    }

    /// The end of a partial round on the keyed words: the words with the
    /// first replaced by what its substitution handed back, times the
    /// mixing matrix. `wires` holds the wires of the three gates of the
    /// round.
    pub fn constrain_apply_partial_round(
        &self,
        keyed: Vec<LinearCombination>,
        wires: &Vec<GateWires>,
    ) -> (mixed: Vec<LinearCombination>)
        requires
            self.wf(),
            keyed@.len() <= self.width(),
            keyed@.len() > 0 ==> wires@.len() == 3,
        ensures
            mixed@.len() == keyed@.len(),
            combinations(mixed@) == mix_terms(
                self.matrix(),
                raised_first(combinations(keyed@), wires@),
            ),
    {
        let mut new_words = keyed;
        // Then apply quintic s-box to first element
        if new_words.len() > 0 {
            let quintic = wires[2].2;
            new_words.set(0, LinearCombination::from_variable(quintic));
        }
        assert(combinations(new_words@) =~= raised_first(combinations(keyed@), wires@));
        // Multiply this result by the MDS matrix
        let mixed = self.matrix.constrain_mul_vector(new_words);
        assert(combinations(mixed@).len() == keyed@.len());
        mixed
    }

    /// Starts the permutation of the variables as linear combinations. What
    /// comes back asks for the gates of every substitution, one after the
    /// other, and gives the result once each has been answered with its
    /// wires. Fails where the table has too few constants for so many words.
    pub fn constrain_result(&self, words: Vec<Variable>) -> (r: Result<
        ConstrainedEvaluation<'_>,
        PermError,
    >)
        requires
            self.wf(),
        ensures
            match r {
                Ok(evaluation) => {
                    &&& self.constants_suffice(words@.len())
                    &&& evaluation.wf()
                    &&& evaluation.permutation() == *self
                    &&& evaluation.variables() == words@
                    &&& evaluation.gates() == Seq::<Gate>::empty()
                },
                Err(e) => e == PermError::NoMoreConstants && !self.constants_suffice(words@.len()),
            },
    {
        let half = self.full_rounds / 2;
        let ghost n = words@.len();
        let ghost start = variables_terms(words@);
        proof {
            self.lemma_constants_suffice_iff(n);
        }
        if words.len() > self.t && (half > 0 || self.partial_rounds > 0) {
            return Err(PermError::NoMoreConstants);
        }
        let mut constants_iter = self.constants.iter();
        let mut new_words: Vec<LinearCombination> = Vec::with_capacity(words.len());
        let mut w: usize = 0;
        while w < words.len()
            invariant
                w <= words@.len(),
                new_words@.len() == w,
                forall|k: int|
                    0 <= k < w ==> (#[trigger] new_words@[k])@ == variable_terms(words@[k]),
            decreases words@.len() - w,
        {
            new_words.push(LinearCombination::from_variable(words[w]));
            w += 1;
        }
        assert(combinations(new_words@) =~= start);
        if words.len() == 0 || (half == 0 && self.partial_rounds == 0) {
            // nothing to ask for
            proof {
                if n == 0 {
                    lemma_no_words(
                        Seq::<Gate>::empty(),
                        0,
                        start,
                        self.constants@,
                        self.matrix@,
                        self.half(),
                        self.partial_rounds(),
                        self.total_rounds(),
                    );
                }
            }
            return Ok(
                ConstrainedEvaluation {
                    permutation: self,
                    constants: constants_iter,
                    round: 0,
                    done: true,
                    words: new_words,
                    wires: Vec::new(),
                    variables: Ghost(words@),
                    gates: Ghost(Seq::empty()),
                },
            );
        }
        proof {
            self.lemma_table_suffices(n, 0);
            assert(0 * n == 0) by (nonlinear_arith);
            assert((0 + 1) * n == n) by (nonlinear_arith);
        }
        match self.constrain_add_round_key(&mut constants_iter, new_words) {
            Ok(keyed) => Ok(
                ConstrainedEvaluation {
                    permutation: self,
                    constants: constants_iter,
                    round: 0,
                    done: false,
                    words: keyed,
                    wires: Vec::new(),
                    variables: Ghost(words@),
                    gates: Ghost(Seq::empty()),
                },
            ),
            Err(e) => Err(e),
        }
    }

    /// The table has a constant for each of `n` words in each round exactly
    /// where there is no round, or no more words than the width.
    proof fn lemma_constants_suffice_iff(self, n: nat)
        requires
            self.wf(),
        ensures
            self.constants_suffice(n) <==> (n <= self.width() || self.total_rounds() == 0),
            self.total_rounds() == self.full_rounds() + self.partial_rounds(),
    {
        let t = self.width();
        let total = self.total_rounds();
        assert(n * total <= t * total <==> (n <= t || total == 0)) by (nonlinear_arith);
        assert(t * total == total * t) by (nonlinear_arith);
    }

    /// Where the table has a constant for each of `n` words in each round,
    /// it has those of the round at `index`, after `index` such rounds.
    proof fn lemma_table_suffices(self, n: nat, index: nat)
        requires
            self.wf(),
            self.constants_suffice(n),
            index < self.total_rounds(),
        ensures
            index * n + n <= self.constants().len(),
            n <= self.width(),
    {
        let total = self.total_rounds();
        self.lemma_constants_suffice_iff(n);
        assert(index * n + n <= n * total) by (nonlinear_arith)
            requires
                index < total,
        ;
    }

    /// Where there is a word and a round, the number of rounds is a `usize`.
    proof fn lemma_rounds_fit(self, n: nat)
        requires
            self.wf(),
            self.constants_suffice(n),
            n > 0,
            self.total_rounds() > 0,
        ensures
            self.total_rounds() <= usize::MAX,
            self.half() + self.partial_rounds() <= usize::MAX,
            n <= self.width(),
    {
        let total = self.total_rounds();
        self.lemma_constants_suffice_iff(n);
        let t = self.width();
        assert(total <= total * t) by (nonlinear_arith)
            requires
                t >= 1,
        ;
    }
}

/// The permutation of variables as linear combinations, under way: it asks
/// for one multiplication gate after the other, takes the wires of each, and
/// gives the result after the last. It keeps a record of the gates as they
/// were answered.
pub struct ConstrainedEvaluation<'a> {
    permutation: &'a Permutation,
    constants: RoundConstantsIterator<'a>,
    round: usize,
    done: bool,
    words: Vec<LinearCombination>,
    wires: Vec<GateWires>,
    variables: Ghost<Seq<Variable>>,
    gates: Ghost<Seq<Gate>>,
}

impl<'a> ConstrainedEvaluation<'a> {
    /// The permutation that is evaluated.
    pub closed spec fn permutation(self) -> Permutation {
        *self.permutation
    }

    /// The variables that are permuted.
    pub closed spec fn variables(self) -> Seq<Variable> {
        self.variables@
    }

    /// The gates asked for and answered so far, in order.
    pub closed spec fn gates(self) -> Seq<Gate> {
        self.gates@
    }

    /// Whether every gate has been answered.
    pub closed spec fn finished(self) -> bool {
        self.done
    }

    /// The index of the round that is under way, or the number of rounds at
    /// the end.
    pub closed spec fn round(self) -> nat {
        if self.done {
            self.permutation().total_rounds()
        } else {
            self.round as nat
        }
    }

    /// The words that entered the round under way, with its keys added.
    pub open spec fn keyed(self) -> Seq<Seq<Term>> {
        let p = self.permutation();
        let start = variables_terms(self.variables());
        add_key_terms(
            constrained_rounds(
                self.gates(),
                0,
                start,
                p.constants(),
                p.matrix(),
                p.half(),
                p.partial_rounds(),
                self.round(),
            ),
            p.constants(),
            self.round() * start.len(),
        )
    }

    /// The number of gates that the rounds before the one under way asked
    /// for.
    pub open spec fn round_base(self) -> int {
        let p = self.permutation();
        gates_in_rounds(self.variables().len(), p.half(), p.partial_rounds(), self.round()) as int
    }

    /// The operands of the next gate to be asked for: those that the
    /// substitution under way asks for on its keyed word, after the gates of
    /// this round that were answered.
    pub open spec fn next_operands(self) -> (Seq<Term>, Seq<Term>) {
        let answered = self.gates().len() - self.round_base();
        s_box_operands(
            self.keyed()[answered / 3],
            wires_from(self.gates(), self.round_base()),
            3 * (answered / 3),
            answered % 3,
        )
    }

    /// The wires that are held are those of the gates of the round under
    /// way, and the words that are held are its keyed words.
    proof fn lemma_held(self)
        requires
            self.wf(),
            !self.done,
        ensures
            self.wires@ == wires_from(self.gates(), self.round_base()),
            combinations(self.words@) == self.keyed(),
            self.gates().len() - self.round_base() == self.wires@.len(),
    {
        let base = self.round_base();
        let held = self.wires@;
        let read = wires_from(self.gates(), base);
        assert forall|j: int| 0 <= j < held.len() implies held[j] == read[j] by {
            assert(gate_fits(self.gates@, base, combinations(self.words@), held, j));
        }
        assert(held =~= read);
    }

    /// The gates so far are those of the rounds that are complete and of the
    /// substitutions of the round under way, as far as they were answered;
    /// the words are the keyed words of that round, or the result at the
    /// end.
    pub closed spec fn wf(self) -> bool {
        let p = self.permutation();
        let n = self.variables@.len();
        let start = variables_terms(self.variables@);
        let half = p.half();
        let partial = p.partial_rounds();
        let round = self.round();
        let base = gates_in_rounds(n, half, partial, round);
        let state = constrained_rounds(
            self.gates@,
            0,
            start,
            p.constants(),
            p.matrix(),
            half,
            partial,
            round,
        );
        &&& p.wf()
        &&& p.constants_suffice(n)
        &&& round <= p.total_rounds()
        &&& self.words@.len() == n
        &&& self.constants.table() == p.constants()
        &&& are_rounds(self.gates@, 0, start, p.constants(), p.matrix(), half, partial, round)
        &&& self.gates@.len() == base + self.wires@.len()
        &&& if self.done {
            &&& self.wires@.len() == 0
            &&& combinations(self.words@) == state
        } else {
            &&& n > 0
            &&& round < p.total_rounds()
            &&& self.constants.position() == (round + 1) * n
            &&& combinations(self.words@) == add_key_terms(state, p.constants(), round * n)
            &&& self.wires@.len() < gates_in_round(n, is_full_round(half, partial, round))
            &&& is_round_prefix(
                self.gates@,
                base as int,
                combinations(self.words@),
                self.wires@,
                self.wires@.len() as int,
            )
        }
    }

    /// The evaluation is finished when as many gates have been answered as
    /// the schedule has, and not before; the gates are then those of the
    /// schedule. Before that, the round under way is the one whose gates
    /// the next gate belongs to.
    pub proof fn lemma_finished(self)
        requires
            self.wf(),
        ensures
            self.round() <= self.permutation().total_rounds(),
            self.finished() <==> self.round() == self.permutation().total_rounds(),
            !self.finished() ==> self.round_base() <= self.gates().len() < gates_in_rounds(
                self.variables().len(),
                self.permutation().half(),
                self.permutation().partial_rounds(),
                self.round() + 1,
            ),
            self.gates().len() <= self.permutation().gate_count(self.variables().len()),
            self.finished() <==> self.gates().len() == self.permutation().gate_count(
                self.variables().len(),
            ),
            self.finished() ==> self.permutation().are_constraints(
                self.gates(),
                0,
                self.variables(),
            ),
    {
        let p = self.permutation();
        let n = self.variables@.len();
        if !self.done {
            lemma_gates_grow(
                n,
                p.half(),
                p.partial_rounds(),
                (self.round + 1) as nat,
                p.total_rounds(),
            );
        }
    }

    /// The operands of the next gate to ask for, or `None` when every gate
    /// has been answered.
    pub fn operands(&self) -> (r: Option<(LinearCombination, LinearCombination)>)
        requires
            self.wf(),
        ensures
            r is None <==> self.finished(),
            r is None <==> self.gates().len() == self.permutation().gate_count(
                self.variables().len(),
            ),
            r matches Some(pair) ==> (pair.0@, pair.1@) == self.next_operands(),
    {
        proof {
            self.lemma_finished();
        }
        if self.done {
            None
        } else {
            proof {
                self.lemma_held();
            }
            let answered = self.wires.len();
            let word = answered / 3;
            Some(
                Permutation::constrain_quintic_s_box(
                    &self.words[word],
                    &self.wires,
                    3 * word,
                    answered % 3,
                ),
            )
        }
    }

    /// Takes the wires of the one gate that was asked for. Where they complete a
    /// round, the round is finished and the next one is begun.
    pub fn supply(&mut self, wires: GateWires)
        requires
            old(self).wf(),
            !old(self).finished(),
        ensures
            final(self).wf(),
            final(self).permutation() == old(self).permutation(),
            final(self).variables() == old(self).variables(),
            final(self).gates() == old(self).gates().push(
                (Gate {
                    left: old(self).next_operands().0,
                    right: old(self).next_operands().1,
                    wires,
                }),
            ),
    {
        let p = self.permutation;
        proof {
            self.lemma_held();
        }
        let ghost n = self.variables@.len();
        let ghost start = variables_terms(self.variables@);
        let ghost half_rounds = p.half();
        let ghost partial = p.partial_rounds();
        let ghost round = self.round as nat;
        let ghost base = gates_in_rounds(n, half_rounds, partial, round) as int;
        let ghost before = self.gates@;
        let ghost keyed = combinations(self.words@);
        let ghost gate = Gate {
            left: self.next_operands().0,
            right: self.next_operands().1,
            wires,
        };
        let ghost after = before.push(gate);
        let ghost state = constrained_rounds(
            before,
            0,
            start,
            p.constants(),
            p.matrix(),
            half_rounds,
            partial,
            round,
        );
        proof {
            p.lemma_rounds_fit(n);
            lemma_prefix_grows(before, base, keyed, self.wires@, gate);
            lemma_rounds_keep(
                before,
                after,
                0,
                start,
                p.constants(),
                p.matrix(),
                half_rounds,
                partial,
                round,
            );
        }
        self.wires.push(wires);
        self.gates = Ghost(after);
        let half = p.full_rounds / 2;
        let full = self.round < half || self.round >= half + p.partial_rounds;
        let answered = self.wires.len();
        let complete = if full {
            answered % 3 == 0 && answered / 3 == self.words.len()
        } else {
            answered == 3
        };
        if complete {
            let mut keyed_words: Vec<LinearCombination> = Vec::new();
            core::mem::swap(&mut self.words, &mut keyed_words);
            let mixed = if full {
                proof {
                    lemma_prefix_is_full_round(after, base, keyed, self.wires@);
                }
                p.constrain_apply_full_round(keyed_words, &self.wires)
            } else {
                proof {
                    lemma_prefix_is_partial_round(after, base, keyed, self.wires@);
                }
                p.constrain_apply_partial_round(keyed_words, &self.wires)
            };
            self.wires.clear();
            let total = half + p.partial_rounds + half;
            proof {
                assert(round * n == round * start.len());
                assert(combinations(mixed@) == constrained_rounds(
                    after,
                    0,
                    start,
                    p.constants(),
                    p.matrix(),
                    half_rounds,
                    partial,
                    round + 1,
                ));
            }
            if self.round + 1 == total {
                self.done = true;
                self.words = mixed;
            } else {
                self.round += 1;
                proof {
                    p.lemma_table_suffices(n, round + 1);
                    assert((round + 1 + 1) * n == (round + 1) * n + n) by (nonlinear_arith);
                }
                match p.constrain_add_round_key(&mut self.constants, mixed) {
                    Ok(next) => {
                        self.words = next;
                    },
                    Err(_) => {},
                }
            }
        }
    }

    /// The result, once every gate has been answered: the permutation of
    /// the variables as linear combinations over the wires of the gates.
    pub fn finish(self) -> (r: Vec<LinearCombination>)
        requires
            self.wf(),
            self.finished(),
        ensures
            r@.len() == self.variables().len(),
            self.gates().len() == self.permutation().gate_count(self.variables().len()),
            self.permutation().are_constraints(self.gates(), 0, self.variables()),
            combinations(r@) == self.permutation().spec_constrain_result(
                self.gates(),
                0,
                self.variables(),
            ),
    {
        self.words
    }
}

} // verus!
