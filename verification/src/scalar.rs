//! Field elements as values: thirty-two bytes that spell a reduced number.
//!
//! The arithmetic itself is done by `curve25519-dalek-ng`; the functions here
//! hand it the bytes and take the bytes of the answer back. Every scalar
//! that this crate hands out comes from one of them, and what they hand back
//! is reduced: that is why a `Scalar` may claim to be canonical.

use crate::field::{
    field_add, field_inverse, field_mul, group_order, is_inverse, is_reduced, le_value,
    lemma_inverse_is_field_inverse,
};
use vstd::prelude::*;

verus! {

/// An element of the field, held as its canonical little-endian bytes.
#[derive(Clone, Copy, Debug, PartialEq, Eq)]
pub struct Scalar {
    bytes: [u8; 32],
}

/// What hashing `input` with SHA-512 and reducing the digest, read as a
/// little-endian number, modulo the group order gives: the thirty-two
/// little-endian bytes of the reduced number.
pub uninterp spec fn sha512_mod_order(input: Seq<u8>) -> Seq<u8>;

/// The field element that a byte string is hashed to.
pub open spec fn hash_to_field(input: Seq<u8>) -> nat {
    le_value(sha512_mod_order(input))
}

impl View for Scalar {
    type V = nat;

    /// The number that the scalar stands for.
    closed spec fn view(&self) -> nat {
        le_value(self.bytes@)
    }
}

impl Scalar {
    /// The bytes spell a reduced number.
    #[verifier::type_invariant]
    pub open spec fn canonical(self) -> bool {
        is_reduced(self@)
    }

    /// The bytes that the scalar holds.
    pub closed spec fn spec_bytes(self) -> Seq<u8> {
        self.bytes@
    }

    /// The scalar that stands for `x`.
    pub fn from_u64(x: u64) -> (r: Scalar)
        ensures
            r@ == x,
    {
        scalar_from_u64(x)
    }

    /// The scalar whose number is the one that `bytes` spell, least
    /// significant byte first, reduced modulo the group order.
    pub fn from_bytes_mod_order(bytes: [u8; 32]) -> (r: Scalar)
        ensures
            r@ == le_value(bytes@) % group_order(),
    {
        scalar_from_bytes_mod_order(bytes)
    }

    /// The scalar that `input` is hashed to.
    pub fn hash_from_bytes(input: &[u8]) -> (r: Scalar)
        ensures
            r.spec_bytes() == sha512_mod_order(input@),
            r@ == hash_to_field(input@),
    {
        scalar_hash_from_bytes(input)
    }

    /// The canonical bytes of the scalar, least significant first.
    pub fn to_bytes(&self) -> (r: [u8; 32])
        ensures
            r@ == self.spec_bytes(),
            le_value(r@) == self@,
            is_reduced(self@),
    {
        proof {
            use_type_invariant(self);
        }
        self.bytes
    }

    /// The sum of two scalars.
    pub fn add(&self, other: &Scalar) -> (r: Scalar)
        ensures
            r@ == field_add(self@, other@),
    {
        scalar_add(self, other)
    }

    /// The product of two scalars.
    pub fn mul(&self, other: &Scalar) -> (r: Scalar)
        ensures
            r@ == field_mul(self@, other@),
    {
        scalar_mul(self, other)
    }

    /// The multiplicative inverse of a scalar that is not zero.
    pub fn invert(&self) -> (r: Scalar)
        requires
            self@ != 0,
        ensures
            is_inverse(self@, r@),
            r@ == field_inverse(self@),
    {
        let r = scalar_invert(self);
        proof {
            lemma_inverse_is_field_inverse(self@, r@);
        }
        r
    }
}

/// `Scalar::from` of `curve25519-dalek-ng` on a `u64`: the scalar whose
/// bytes spell that integer, which is less than the group order.
#[verifier::external_body]
fn scalar_from_u64(x: u64) -> (r: Scalar)
    ensures
        r@ == x,
        is_reduced(r@),
{
    Scalar { bytes: curve25519_dalek_ng::scalar::Scalar::from(x).to_bytes() }
}

/// `Scalar::from_bytes_mod_order` of `curve25519-dalek-ng`: the 256-bit
/// little-endian number that the bytes spell, reduced modulo the group order.
#[verifier::external_body]
fn scalar_from_bytes_mod_order(bytes: [u8; 32]) -> (r: Scalar)
    ensures
        r@ == le_value(bytes@) % group_order(),
        is_reduced(r@),
{
    Scalar { bytes: curve25519_dalek_ng::scalar::Scalar::from_bytes_mod_order(bytes).to_bytes() }
}

/// `Scalar::hash_from_bytes` of `curve25519-dalek-ng` with SHA-512 of `sha2`:
/// the bytes of the scalar that the input is hashed to, which spell a number
/// less than the group order, the digest having been reduced.
#[verifier::external_body]
fn scalar_hash_from_bytes(input: &[u8]) -> (r: Scalar)
    ensures
        r.spec_bytes() == sha512_mod_order(input@),
        r@ == hash_to_field(input@),
        is_reduced(r@),
{
    let s = curve25519_dalek_ng::scalar::Scalar::hash_from_bytes::<sha2::Sha512>(input);
    Scalar { bytes: s.to_bytes() }
}

/// Addition of two scalars of `curve25519-dalek-ng`: the sum modulo the group
/// order, reduced.
#[verifier::external_body]
fn scalar_add(a: &Scalar, b: &Scalar) -> (r: Scalar)
    ensures
        r@ == field_add(a@, b@),
        is_reduced(r@),
{
    let x = curve25519_dalek_ng::scalar::Scalar::from_bytes_mod_order(a.bytes);
    let y = curve25519_dalek_ng::scalar::Scalar::from_bytes_mod_order(b.bytes);
    Scalar { bytes: (&x + &y).to_bytes() }
}

/// Multiplication of two scalars of `curve25519-dalek-ng`: the product modulo
/// the group order, reduced.
#[verifier::external_body]
fn scalar_mul(a: &Scalar, b: &Scalar) -> (r: Scalar)
    ensures
        r@ == field_mul(a@, b@),
        is_reduced(r@),
{
    let x = curve25519_dalek_ng::scalar::Scalar::from_bytes_mod_order(a.bytes);
    let y = curve25519_dalek_ng::scalar::Scalar::from_bytes_mod_order(b.bytes);
    Scalar { bytes: (&x * &y).to_bytes() }
}

/// `Scalar::invert` of `curve25519-dalek-ng`, which asks for a scalar that is
/// not zero: the reduced scalar whose product with the argument is one.
#[verifier::external_body]
fn scalar_invert(a: &Scalar) -> (r: Scalar)
    requires
        a@ != 0,
    ensures
        is_inverse(a@, r@),
{
    let x = curve25519_dalek_ng::scalar::Scalar::from_bytes_mod_order(a.bytes);
    Scalar { bytes: x.invert().to_bytes() }
}

} // verus!
