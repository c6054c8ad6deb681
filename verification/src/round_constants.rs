//! The round constants: a hash chain that starts from a fixed seed, and a
//! cursor that hands the constants out one by one.

use crate::field::le_value;
use crate::scalar::{sha512_mod_order, Scalar};
use vstd::prelude::*;

verus! {

/// The seed of the chain: the ASCII bytes of "poseidon".
pub open spec fn seed() -> Seq<u8> {
    seq![112u8, 111u8, 115u8, 101u8, 105u8, 100u8, 111u8, 110u8]
}

/// The bytes of the constant at an index: the seed hashed to a scalar for the
/// first, the bytes of the one before hashed to a scalar for every other.
pub open spec fn constant_bytes(index: nat) -> Seq<u8>
    decreases index,
{
    if index == 0 {
        sha512_mod_order(seed())
    } else {
        sha512_mod_order(constant_bytes((index - 1) as nat))
    }
}

/// The first `count` constants of the chain.
pub open spec fn generated_constants(count: nat) -> Seq<nat> {
    Seq::new(count, |k: int| le_value(constant_bytes(k as nat)))
}

/// The numbers that a sequence of scalars stands for.
pub open spec fn values(scalars: Seq<Scalar>) -> Seq<nat> {
    scalars.map_values(|s: Scalar| s@)
}

/// A table of round constants, in the order in which rounds use them.
#[derive(Debug, PartialEq)]
pub struct RoundConstants {
    constants: Vec<Scalar>,
}

impl View for RoundConstants {
    type V = Seq<nat>;

    /// The constants in order.
    closed spec fn view(&self) -> Seq<nat> {
        values(self.constants@)
    }
}

impl RoundConstants {
    /// The table holds the start of the chain.
    #[verifier::type_invariant]
    pub open spec fn wf(self) -> bool {
        self@ == generated_constants(self@.len())
    }

    /// The constants for `full_rounds + partial_rounds` rounds on `t` words:
    /// one for each word of each round.
    pub fn generate(full_rounds: usize, partial_rounds: usize, t: usize) -> (r: RoundConstants)
        requires
            (full_rounds + partial_rounds) * t <= usize::MAX,
        ensures
            r@ == generated_constants(((full_rounds + partial_rounds) * t) as nat),
    {
        let count = Self::count(full_rounds, partial_rounds, t);
        let mut constants: Vec<Scalar> = Vec::with_capacity(count);
        let seed_bytes: [u8; 8] = [112, 111, 115, 101, 105, 100, 111, 110];
        assert(seed_bytes@ =~= seed());
        let mut i: usize = 0;
        let mut last: [u8; 32] = [0u8; 32];
        while i < count
            invariant
                i <= count,
                constants@.len() == i,
                seed_bytes@ == seed(),
                i > 0 ==> last@ == constant_bytes((i - 1) as nat),
                forall|k: int|
                    0 <= k < i ==> (#[trigger] constants@[k])@ == le_value(
                        constant_bytes(k as nat),
                    ),
            decreases count - i,
        {
            let c = if i == 0 {
                Scalar::hash_from_bytes(seed_bytes.as_slice())
            } else {
                Scalar::hash_from_bytes(last.as_slice())
            };
            assert(c.spec_bytes() == constant_bytes(i as nat));
            last = c.to_bytes();
            constants.push(c);
            i += 1;
        }
        assert(values(constants@) =~= generated_constants(count as nat));
        RoundConstants { constants }
    }

    /// How many constants `full_rounds + partial_rounds` rounds on `t` words
    /// need.
    fn count(full_rounds: usize, partial_rounds: usize, t: usize) -> (r: usize)
        requires
            (full_rounds + partial_rounds) * t <= usize::MAX,
        ensures
            r == (full_rounds + partial_rounds) * t,
    {
        if t == 0 {
            0
        } else {
            assert(full_rounds + partial_rounds <= usize::MAX) by (nonlinear_arith)
                requires
                    (full_rounds + partial_rounds) * t <= usize::MAX,
                    t >= 1,
            ;
            (full_rounds + partial_rounds) * t
        }
    }

    /// The number of constants.
    pub fn len(&self) -> (r: usize)
        ensures
            r == self@.len(),
    {
        self.constants.len()
    }

    /// A cursor at the first constant.
    pub fn iter(&self) -> (r: RoundConstantsIterator<'_>)
        ensures
            r.table() == self@,
            r.position() == 0,
    {
        RoundConstantsIterator { constants: self, position: 0 }
    }
}

/// A cursor over a table of round constants.
pub struct RoundConstantsIterator<'a> {
    constants: &'a RoundConstants,
    position: usize,
}

impl<'a> RoundConstantsIterator<'a> {
    /// The cursor never passes the end of its table.
    #[verifier::type_invariant]
    pub open spec fn wf(self) -> bool {
        self.position() <= self.table().len()
    }

    /// The table that the cursor walks.
    pub closed spec fn table(self) -> Seq<nat> {
        self.constants@
    }

    /// How many constants the cursor has handed out.
    pub closed spec fn position(self) -> nat {
        self.position as nat
    }

    /// How many constants are left.
    pub open spec fn remaining(self) -> nat {
        (self.table().len() - self.position()) as nat
    }

    /// The next constant, or `None` after the last.
    pub fn next(&mut self) -> (r: Option<Scalar>)
        ensures
            final(self).table() == old(self).table(),
            match r {
                Some(c) => old(self).position() < old(self).table().len()
                    && c@ == old(self).table()[old(self).position() as int]
                    && final(self).position() == old(self).position() + 1,
                None => old(self).position() == old(self).table().len()
                    && final(self).position() == old(self).position(),
            },
    {
        proof {
            use_type_invariant(&*self);
        }
        if self.position < self.constants.constants.len() {
            let c = self.constants.constants[self.position];
            self.position += 1;
            Some(c)
        } else {
            None
        }
    }
}

} // verus!
