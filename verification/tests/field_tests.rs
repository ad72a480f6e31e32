use ark_bn254::Fr;
use ark_ff::{BigInteger, PrimeField};
use ducat::address::Address;
use ducat::field::FieldElement;
use ducat::hash::hash_to_field;
use ducat::serial_number::TransactionSerialNumber;
use ducat::utils::{prime_field_to_u64, prime_fields_to_u64s, string_to_fpvar};
use rs_merkle::algorithms::Sha256;
use rs_merkle::Hasher;

const ORDER_MINUS_ONE: [u8; 32] = [
    0, 0, 0, 240, 147, 245, 225, 67, 145, 112, 185, 121, 72, 232, 51, 40, 93, 88, 129, 129, 182,
    69, 80, 184, 41, 160, 49, 225, 114, 78, 100, 48,
];

const HASH_OF_ZERO: [u8; 32] = [
    102, 104, 122, 173, 248, 98, 189, 119, 108, 143, 193, 139, 142, 159, 142, 32, 8, 151, 20,
    133, 110, 226, 51, 179, 144, 42, 89, 29, 13, 95, 41, 37,
];

const HASH_OF_FORTY_TWO: [u8; 32] = [
    17, 243, 187, 92, 188, 128, 203, 101, 142, 58, 129, 223, 176, 251, 69, 194, 211, 182, 59,
    112, 209, 168, 240, 144, 248, 207, 70, 31, 249, 234, 242, 16,
];

#[test]
fn from_u64_spells_little_endian_bytes() {
    let e = FieldElement::from_u64(0x0102_0304_0506_0708);
    let mut expected = [0u8; 32];
    expected[..8].copy_from_slice(&[8, 7, 6, 5, 4, 3, 2, 1]);
    assert_eq!(e.to_bytes_le(), expected);
    assert_eq!(e.low_u64(), 0x0102_0304_0506_0708);
}

#[test]
fn from_u128_keeps_sixteen_bytes() {
    let e = FieldElement::from_u128(u128::MAX);
    let mut expected = [0u8; 32];
    for b in expected.iter_mut().take(16) {
        *b = 255;
    }
    assert_eq!(e.to_bytes_le(), expected);
    assert_eq!(e.low_u64(), u64::MAX);
}

#[test]
fn from_i32_sign_extends() {
    assert_eq!(FieldElement::from_i32(7), FieldElement::from_u64(7));
    assert_eq!(FieldElement::from_i32(0), FieldElement::from_u64(0));
    assert_eq!(FieldElement::from_i32(-1), FieldElement::from_u64(u64::MAX));
    assert_eq!(
        FieldElement::from_i32(i32::MIN),
        FieldElement::from_u64(0xffff_ffff_8000_0000)
    );
    assert_eq!(FieldElement::from_i32(i32::MAX), FieldElement::from_u64(0x7fff_ffff));
}

#[test]
fn reduction_wraps_at_the_field_order() {
    let mut order = ORDER_MINUS_ONE;
    order[0] = 1;
    assert_eq!(FieldElement::from_le_bytes_mod_order(&order), FieldElement::from_u64(0));
    let all_ones = [255u8; 32];
    let expected: [u8; 32] = [
        250, 255, 255, 79, 28, 52, 150, 172, 41, 205, 96, 159, 149, 118, 252, 54, 46, 70, 121,
        120, 111, 163, 110, 102, 47, 223, 7, 154, 193, 119, 10, 14,
    ];
    assert_eq!(FieldElement::from_le_bytes_mod_order(&all_ones).to_bytes_le(), expected);
    assert_eq!(
        FieldElement::from_le_bytes_mod_order(&ORDER_MINUS_ONE).to_bytes_le(),
        ORDER_MINUS_ONE
    );
    assert_eq!(FieldElement::from_le_bytes_mod_order(&[]), FieldElement::from_u64(0));
    assert_eq!(FieldElement::from_le_bytes_mod_order(&[9]), FieldElement::from_u64(9));
}

#[test]
fn equality_and_order_follow_the_integers() {
    let small = FieldElement::from_u64(255);
    let big = FieldElement::from_u64(256);
    let top = FieldElement::from_le_bytes_mod_order(&ORDER_MINUS_ONE);
    assert!(small.is_eq(&FieldElement::from_u64(255)));
    assert!(!small.is_eq(&big));
    assert!(small.is_less_than(&big));
    assert!(!big.is_less_than(&small));
    assert!(!small.is_less_than(&small));
    assert!(big.is_less_than(&top));
    assert!(!top.is_less_than(&big));
}

#[test]
fn product_is_taken_in_the_field() {
    let three = FieldElement::from_u64(3);
    let five = FieldElement::from_u64(5);
    assert_eq!(three.times(&five), FieldElement::from_u64(15));
    let minus_one = FieldElement::from_le_bytes_mod_order(&ORDER_MINUS_ONE);
    assert_eq!(minus_one.times(&minus_one), FieldElement::from_u64(1));
    assert_eq!(minus_one.times(&FieldElement::from_u64(0)), FieldElement::from_u64(0));
}

#[test]
fn inverse_exists_for_all_but_zero() {
    assert!(FieldElement::from_u64(0).inverse().is_none());
    let two = FieldElement::from_u64(2);
    let half = two.inverse().unwrap();
    let expected: [u8; 32] = [
        1, 0, 0, 248, 201, 250, 240, 161, 72, 184, 220, 60, 36, 244, 25, 148, 46, 172, 192, 64,
        219, 34, 40, 220, 20, 208, 152, 112, 57, 39, 50, 24,
    ];
    assert_eq!(half.to_bytes_le(), expected);
    assert_eq!(two.times(&half), FieldElement::from_u64(1));
    assert_eq!(FieldElement::from_u64(1).inverse().unwrap(), FieldElement::from_u64(1));
}

#[test]
fn random_elements_are_reduced() {
    for _ in 0..32 {
        let drawn = FieldElement::random();
        let again = FieldElement::from_le_bytes_mod_order(&drawn.to_bytes_le());
        assert_eq!(drawn, again);
    }
    assert_ne!(FieldElement::random(), FieldElement::random());
}

#[test]
fn lowering_keeps_the_low_64_bits() {
    let top = FieldElement::from_le_bytes_mod_order(&ORDER_MINUS_ONE);
    assert_eq!(prime_field_to_u64(top), Some(0x43e1_f593_f000_0000));
    assert_eq!(prime_field_to_u64(FieldElement::from_u64(0)), Some(0));
    let wide = FieldElement::from_u128((5u128 << 64) + 9);
    assert_eq!(prime_field_to_u64(wide), Some(9));
    let lows = prime_fields_to_u64s(&vec![wide, top, FieldElement::from_u64(77)]);
    assert_eq!(lows, vec![9, 0x43e1_f593_f000_0000, 77]);
    assert_eq!(prime_fields_to_u64s(&vec![]), Vec::<u64>::new());
}

#[test]
fn hash_to_field_is_the_reduced_digest() {
    assert_eq!(hash_to_field(&FieldElement::from_u64(0)).to_bytes_le(), HASH_OF_ZERO);
    assert_eq!(hash_to_field(&FieldElement::from_u64(42)).to_bytes_le(), HASH_OF_FORTY_TWO);
}

#[test]
fn address_public_key_is_hash_of_secret_key() {
    for secret in [0u64, 1, 2, 42, 1 << 40, u64::MAX] {
        let sk = FieldElement::from_u64(secret);
        let address = Address::new(&sk);
        let digest = Sha256::hash(&sk.to_bytes_le());
        let reduced = Fr::from_le_bytes_mod_order(&digest).into_bigint().to_bytes_le();
        assert_eq!(address.public_key().to_bytes_le().to_vec(), reduced);
        assert_eq!(address.secret_key(), sk);
    }
    let address = Address::new(&FieldElement::from_u64(42));
    assert_eq!(address.public_key().to_bytes_le(), HASH_OF_FORTY_TWO);
}

#[test]
fn serial_number_is_hash_of_nonce() {
    let serial = TransactionSerialNumber::new(FieldElement::from_u64(42));
    assert_eq!(serial.sn().to_bytes_le(), HASH_OF_FORTY_TWO);
    assert_eq!(serial.sn().low_u64(), 7335097964601013009);
    let other = TransactionSerialNumber::new(FieldElement::from_u64(43));
    assert_ne!(serial.sn(), other.sn());
    assert_eq!(serial, TransactionSerialNumber::new(FieldElement::from_u64(42)));
}

#[test]
fn text_spells_a_field_element() {
    assert_eq!(string_to_fpvar(""), FieldElement::from_u64(0));
    assert_eq!(string_to_fpvar("ab"), FieldElement::from_u64(0x6261));
    assert_eq!(string_to_fpvar("11"), FieldElement::from_u64(0x3131));
    let long = "abcdefghijklmnopqrstuvwxyz0123456789";
    let mut expected = [0u8; 32];
    expected[..31].copy_from_slice(&long.as_bytes()[..31]);
    assert_eq!(string_to_fpvar(long).to_bytes_le(), expected);
    assert_eq!(string_to_fpvar(long), string_to_fpvar(&long[..31]));
}
