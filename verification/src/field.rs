//! The prime field in which the permutation computes: integers modulo the
//! order of the Ristretto group, as plain natural numbers.

use vstd::arithmetic::div_mod::{
    lemma_add_mod_noop, lemma_mod_bound, lemma_mod_twice, lemma_mul_mod_noop_left,
    lemma_mul_mod_noop_right, lemma_small_mod,
};
use vstd::arithmetic::power::pow;
use vstd::prelude::*;

verus! {

/// The order of the field: 2^252 + 27742317777372353535851937790883648493.
pub open spec fn group_order() -> nat {
    7237005577332262213973186563042994240857116359379907606001950938285454250989nat
}

/// Whether `x` is a reduced representative of a field element.
pub open spec fn is_reduced(x: nat) -> bool {
    x < group_order()
}

/// Field addition.
pub open spec fn field_add(a: nat, b: nat) -> nat {
    (a + b) % group_order()
}

/// Field multiplication.
pub open spec fn field_mul(a: nat, b: nat) -> nat {
    (a * b) % group_order()
}

/// The fifth power of `x` in the field.
pub open spec fn quintic(x: nat) -> nat {
    (pow(x as int, 5) % (group_order() as int)) as nat
}

/// Whether `y` is the multiplicative inverse of `x` in the field.
pub open spec fn is_inverse(x: nat, y: nat) -> bool {
    is_reduced(y) && field_mul(x, y) == 1
}

/// The multiplicative inverse of `x`, where it has one.
pub open spec fn field_inverse(x: nat) -> nat {
    choose|y: nat| is_inverse(x, y)
}

/// The number that `bytes` spell in base 256, least significant byte first.
pub open spec fn le_value(bytes: Seq<u8>) -> nat
    decreases bytes.len(),
{
    if bytes.len() == 0 {
        0
    } else {
        bytes[0] as nat + 256 * le_value(bytes.skip(1))
    }
}

/// A product in the field does not change when a factor is reduced first.
pub proof fn lemma_field_mul_reduces(a: nat, b: nat)
    ensures
        field_mul(a % group_order(), b) == field_mul(a, b),
        field_mul(a, b % group_order()) == field_mul(a, b),
        is_reduced(field_mul(a, b)),
{
    let m = group_order() as int;
    lemma_mul_mod_noop_left(a as int, b as int, m);
    lemma_mul_mod_noop_right(a as int, b as int, m);
    lemma_mod_bound((a * b) as int, m);
}

/// A sum in the field does not change when a summand is reduced first.
pub proof fn lemma_field_add_reduces(a: nat, b: nat)
    ensures
        field_add(a % group_order(), b) == field_add(a, b),
        field_add(a, b % group_order()) == field_add(a, b),
        is_reduced(field_add(a, b)),
{
    let m = group_order() as int;
    lemma_add_mod_noop(a as int, b as int, m);
    lemma_add_mod_noop((a % group_order()) as int, b as int, m);
    lemma_add_mod_noop(a as int, (b % group_order()) as int, m);
    lemma_mod_twice(a as int, m);
    lemma_mod_twice(b as int, m);
    lemma_mod_bound((a + b) as int, m);
}

/// Four successive multiplications by `x` give the fifth power.
pub proof fn lemma_quintic_by_products(x: nat)
    ensures
        quintic(x) == field_mul(field_mul(field_mul(field_mul(x, x), x), x), x),
        quintic(x) == field_mul(field_mul(field_mul(x, x), field_mul(x, x)), x),
        is_reduced(quintic(x)),
{
    let m = group_order() as int;
    let xi = x as int;
    reveal_with_fuel(pow, 6);
    assert(pow(xi, 5) == xi * (xi * (xi * (xi * xi)))) by {
        assert(pow(xi, 0) == 1);
        assert(pow(xi, 1) == xi * 1);
    }
    let x2 = x * x;
    let x3 = x2 * x;
    let x4 = x3 * x;
    let x5 = x4 * x;
    assert(pow(xi, 5) == x5) by (nonlinear_arith)
        requires
            pow(xi, 5) == xi * (xi * (xi * (xi * xi))),
            x2 == x * x,
            x3 == x2 * x,
            x4 == x3 * x,
            x5 == x4 * x,
            xi == x,
    ;
    let square = field_mul(x, x);
    let cube = field_mul(square, x);
    let fourth = field_mul(cube, x);
    let fifth = field_mul(fourth, x);
    lemma_field_mul_reduces(x2, x);
    assert(cube == x3 % group_order());
    lemma_field_mul_reduces(x3, x);
    assert(fourth == x4 % group_order());
    lemma_field_mul_reduces(x4, x);
    assert(fifth == x5 % group_order());
    let twice_squared = field_mul(square, square);
    lemma_field_mul_reduces(x2, square);
    lemma_field_mul_reduces(x2, x2);
    assert(x2 * x2 == x4) by (nonlinear_arith)
        requires
            x2 == x * x,
            x3 == x2 * x,
            x4 == x3 * x,
    ;
    assert(twice_squared == x4 % group_order());
    lemma_mod_bound(x5 as int, m);
}

/// A field element has at most one inverse.
pub proof fn lemma_inverse_unique(x: nat, y: nat, z: nat)
    requires
        is_inverse(x, y),
        is_inverse(x, z),
    ensures
        y == z,
{
    // y = y * (x * z) = (y * x) * z = z, all modulo the order
    assert(y * x * z == y * (x * z)) by (nonlinear_arith);
    assert(y * x == x * y) by (nonlinear_arith);
    lemma_field_mul_reduces(y * x, z);
    assert(field_mul(y * x, z) == field_mul(1, z));
    assert(field_mul(1, z) == z) by {
        assert(1 * z == z);
        lemma_small_mod(z, group_order());
    }
    lemma_field_mul_reduces(y, x * z);
    assert(field_mul(y, x * z) == field_mul(y, 1));
    assert(field_mul(y, 1) == y) by {
        assert(y * 1 == y);
        lemma_small_mod(y, group_order());
    }
    assert(field_mul(y * x, z) == field_mul(y, x * z));
}

/// An inverse that has been found is the inverse.
pub proof fn lemma_inverse_is_field_inverse(x: nat, y: nat)
    requires
        is_inverse(x, y),
    ensures
        field_inverse(x) == y,
{
    lemma_inverse_unique(x, field_inverse(x), y);
}

} // verus!
