use curve25519_dalek_ng::scalar::Scalar as DalekScalar;
use poseidon_permutation::permutation::Permutation;
use poseidon_permutation::scalar::Scalar;
use sha2::Sha512;

/// The group order, least significant byte first.
const ORDER: [u8; 32] = [
    0xed, 0xd3, 0xf5, 0x5c, 0x1a, 0x63, 0x12, 0x58, 0xd6, 0x9c, 0xf7, 0xa2, 0xde, 0xf9, 0xde, 0x14,
    0x00, 0x00, 0x00, 0x00, 0x00, 0x00, 0x00, 0x00, 0x00, 0x00, 0x00, 0x00, 0x00, 0x00, 0x00, 0x10,
];

fn bytes_of(x: u64) -> [u8; 32] {
    let mut bytes = [0u8; 32];
    bytes[..8].copy_from_slice(&x.to_le_bytes());
    bytes
}

#[test]
fn from_u64_spells_the_integer() {
    assert_eq!(Scalar::from_u64(0).to_bytes(), [0u8; 32]);
    assert_eq!(Scalar::from_u64(1).to_bytes(), bytes_of(1));
    assert_eq!(Scalar::from_u64(0x0102030405060708).to_bytes(), bytes_of(0x0102030405060708));
    assert_eq!(Scalar::from_u64(u64::MAX).to_bytes(), bytes_of(u64::MAX));
}

#[test]
fn from_bytes_mod_order_reduces() {
    assert_eq!(Scalar::from_bytes_mod_order(ORDER), Scalar::from_u64(0));
    let mut order_plus_two = ORDER;
    order_plus_two[0] = 0xef;
    assert_eq!(Scalar::from_bytes_mod_order(order_plus_two), Scalar::from_u64(2));
    let mut order_minus_one = ORDER;
    order_minus_one[0] = 0xec;
    assert_eq!(Scalar::from_bytes_mod_order(order_minus_one).to_bytes(), order_minus_one);
    assert_eq!(Scalar::from_bytes_mod_order(bytes_of(77)), Scalar::from_u64(77));
}

#[test]
fn addition_wraps_at_the_order() {
    assert_eq!(Scalar::from_u64(2).add(&Scalar::from_u64(3)), Scalar::from_u64(5));
    let mut order_minus_one = ORDER;
    order_minus_one[0] = 0xec;
    let top = Scalar::from_bytes_mod_order(order_minus_one);
    assert_eq!(top.add(&Scalar::from_u64(1)), Scalar::from_u64(0));
    assert_eq!(top.add(&Scalar::from_u64(5)), Scalar::from_u64(4));
}

#[test]
fn multiplication_wraps_at_the_order() {
    assert_eq!(Scalar::from_u64(6).mul(&Scalar::from_u64(7)), Scalar::from_u64(42));
    assert_eq!(Scalar::from_u64(6).mul(&Scalar::from_u64(0)), Scalar::from_u64(0));
    let mut order_minus_one = ORDER;
    order_minus_one[0] = 0xec;
    let minus_one = Scalar::from_bytes_mod_order(order_minus_one);
    // (-1) * (-1) = 1
    assert_eq!(minus_one.mul(&minus_one), Scalar::from_u64(1));
}

#[test]
fn inverse_times_scalar_is_one() {
    for x in [1u64, 2, 3, 9, 17, 0xffff_ffff_ffff_ffff] {
        let s = Scalar::from_u64(x);
        assert_eq!(s.invert().mul(&s), Scalar::from_u64(1));
    }
    assert_eq!(Scalar::from_u64(1).invert(), Scalar::from_u64(1));
    let mut order_minus_one = ORDER;
    order_minus_one[0] = 0xec;
    let minus_one = Scalar::from_bytes_mod_order(order_minus_one);
    assert_eq!(minus_one.invert(), minus_one);
}

#[test]
fn hash_from_bytes_is_the_reduced_digest() {
    for input in [&b""[..], &b"poseidon"[..], &b"a longer input, of no meaning"[..]] {
        let expected = DalekScalar::hash_from_bytes::<Sha512>(input).to_bytes();
        assert_eq!(Scalar::hash_from_bytes(input).to_bytes(), expected);
    }
    assert_ne!(Scalar::hash_from_bytes(b"a"), Scalar::hash_from_bytes(b"b"));
}

#[test]
fn quintic_s_box_is_the_fifth_power() {
    assert_eq!(Permutation::quintic_s_box(&Scalar::from_u64(0)), Scalar::from_u64(0));
    assert_eq!(Permutation::quintic_s_box(&Scalar::from_u64(1)), Scalar::from_u64(1));
    assert_eq!(Permutation::quintic_s_box(&Scalar::from_u64(2)), Scalar::from_u64(32));
    assert_eq!(Permutation::quintic_s_box(&Scalar::from_u64(3)), Scalar::from_u64(243));
    assert_eq!(Permutation::quintic_s_box(&Scalar::from_u64(10)), Scalar::from_u64(100_000));
    let mut order_minus_one = ORDER;
    order_minus_one[0] = 0xec;
    let minus_one = Scalar::from_bytes_mod_order(order_minus_one);
    // (-1)^5 = -1
    assert_eq!(Permutation::quintic_s_box(&minus_one), minus_one);
    let mut order_minus_two = ORDER;
    order_minus_two[0] = 0xeb;
    let minus_two = Scalar::from_bytes_mod_order(order_minus_two);
    // (-2)^5 = -32
    let mut order_minus_32 = ORDER;
    order_minus_32[0] = 0xed - 32;
    assert_eq!(Permutation::quintic_s_box(&minus_two).to_bytes(), order_minus_32);
}

#[test]
fn quintic_s_box_agrees_with_dalek() {
    let x = Scalar::hash_from_bytes(b"some element");
    let d = DalekScalar::from_bytes_mod_order(x.to_bytes());
    let expected = d * d * d * d * d;
    assert_eq!(Permutation::quintic_s_box(&x).to_bytes(), expected.to_bytes());
}
