use fibonacci_circuit::field::{Fe, Value};

const MODULUS: [u8; 32] = [
    1, 0, 0, 0, 237, 48, 45, 153, 27, 249, 76, 9, 252, 152, 70, 34, 0, 0, 0, 0, 0, 0, 0, 0, 0, 0,
    0, 0, 0, 0, 0, 64,
];

fn modulus_minus_one() -> [u8; 32] {
    let mut bytes = MODULUS;
    bytes[0] = 0;
    bytes
}

#[test]
fn add_small_values() {
    let a = Fe::from_u64(21);
    let b = Fe::from_u64(34);
    assert_eq!(a.add(&b), Fe::from_u64(55));
    assert_ne!(a.add(&b), a);
    assert_ne!(a.add(&b), b);
}

#[test]
fn add_wraps_at_the_field_order() {
    let top = Fe::from_bytes(modulus_minus_one()).unwrap();
    assert_eq!(top.add(&Fe::one()), Fe::zero());
    assert_eq!(top.add(&Fe::from_u64(56)), Fe::from_u64(55));
}

#[test]
fn from_u64_is_little_endian() {
    let mut expected = [0u8; 32];
    expected[0] = 0x07;
    expected[1] = 0x01;
    assert_eq!(Fe::from_u64(0x0107).to_bytes(), expected);
    let mut wide = [0u8; 32];
    for byte in wide.iter_mut().take(8) {
        *byte = 0xff;
    }
    assert_eq!(Fe::from_u64(u64::MAX).to_bytes(), wide);
}

#[test]
fn zero_and_one() {
    assert_eq!(Fe::zero().to_bytes(), [0u8; 32]);
    let mut one = [0u8; 32];
    one[0] = 1;
    assert_eq!(Fe::one().to_bytes(), one);
    assert!(Fe::zero().is_zero());
    assert!(!Fe::one().is_zero());
    assert!(!Fe::from_bytes(modulus_minus_one()).unwrap().is_zero());
}

#[test]
fn from_bytes_accepts_only_canonical_encodings() {
    assert!(Fe::from_bytes(MODULUS).is_none());
    assert!(Fe::from_bytes([0xff; 32]).is_none());
    let mut above = MODULUS;
    above[0] = 2;
    assert!(Fe::from_bytes(above).is_none());
    let top = Fe::from_bytes(modulus_minus_one());
    assert!(top.is_some());
    assert_eq!(top.unwrap().to_bytes(), modulus_minus_one());
    let mut five = [0u8; 32];
    five[0] = 5;
    assert_eq!(Fe::from_bytes(five), Some(Fe::from_u64(5)));
}

#[test]
fn neg_is_the_additive_inverse() {
    assert_eq!(Fe::one().neg().to_bytes(), modulus_minus_one());
    assert_eq!(Fe::zero().neg(), Fe::zero());
    let x = Fe::from_u64(1234567);
    assert_eq!(x.add(&x.neg()), Fe::zero());
    assert_ne!(x.neg(), x);
}

#[test]
fn mul_small_values() {
    assert_eq!(Fe::from_u64(3).mul(&Fe::from_u64(4)), Fe::from_u64(12));
    assert_eq!(Fe::from_u64(3).mul(&Fe::zero()), Fe::zero());
    assert_eq!(Fe::from_u64(3).mul(&Fe::one()), Fe::from_u64(3));
}

#[test]
fn mul_wraps_at_the_field_order() {
    let top = Fe::from_bytes(modulus_minus_one()).unwrap();
    // (p - 1) * (p - 1) = 1 and (p - 1) * 2 = p - 2 in the field.
    assert_eq!(top.mul(&top), Fe::one());
    assert_eq!(top.mul(&Fe::from_u64(2)), Fe::from_u64(2).neg());
}

#[test]
fn equality_follows_the_value() {
    assert_eq!(Fe::from_u64(9), Fe::from_u64(9));
    assert_ne!(Fe::from_u64(9), Fe::from_u64(10));
    assert_ne!(Fe::from_u64(1 << 40), Fe::zero());
}

#[test]
fn unknown_values_propagate_through_sums() {
    let x = Value::known(Fe::from_u64(2));
    let y = Value::known(Fe::from_u64(3));
    assert!(matches!(x.add(&y), Value::Known(v) if v == Fe::from_u64(5)));
    assert!(matches!(x.add(&Value::unknown()), Value::Unknown));
    assert!(matches!(Value::Unknown.add(&y), Value::Unknown));
    assert!(matches!(Value::Unknown.add(&Value::Unknown), Value::Unknown));
    assert!(x.is_known());
    assert!(!Value::Unknown.is_known());
}

#[test]
fn unknown_equals_nothing() {
    let x = Value::Known(Fe::from_u64(2));
    assert!(x.equals(&Value::Known(Fe::from_u64(2))));
    assert!(!x.equals(&Value::Known(Fe::from_u64(3))));
    assert!(!x.equals(&Value::Unknown));
    assert!(!Value::Unknown.equals(&x));
    assert!(!Value::Unknown.equals(&Value::Unknown));
}

#[test]
fn unknown_values_propagate_through_products_and_inverses() {
    let x = Value::known(Fe::from_u64(2));
    let y = Value::known(Fe::from_u64(3));
    assert!(matches!(x.mul(&y), Value::Known(v) if v == Fe::from_u64(6)));
    assert!(matches!(x.mul(&Value::Unknown), Value::Unknown));
    assert!(matches!(Value::Unknown.mul(&y), Value::Unknown));
    assert!(matches!(x.neg(), Value::Known(v) if v == Fe::from_u64(2).neg()));
    assert!(matches!(Value::Unknown.neg(), Value::Unknown));
}
