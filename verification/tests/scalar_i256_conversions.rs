use proof_of_sql::i256::{convert_i256_to_scalar, convert_scalar_to_i256, I256};
use proof_of_sql::scalar::Scalar;
use rand::Rng;
use rand::RngCore;

const MAX_SUPPORTED_LOW: u128 = 13871158888686176767925968895441824246;
const MAX_SUPPORTED_HIGH: i128 = 10633823966279326983230456482242756608;
const MIN_SUPPORTED_LOW: u128 = 326411208032252286695448638536326387210;
const MIN_SUPPORTED_HIGH: i128 = -10633823966279326983230456482242756609;

/// Generate a random in-range value: it fits the 256-bit type but stays
/// within the scalar-supported window.
fn random_i256<R: RngCore + ?Sized>(rng: &mut R) -> I256 {
    let high: i128 = rng.gen_range(-MAX_SUPPORTED_HIGH..=MAX_SUPPORTED_HIGH);
    let low: u128 = if high < MAX_SUPPORTED_HIGH {
        rng.gen()
    } else {
        rng.gen_range(0..=MAX_SUPPORTED_LOW)
    };
    I256::from_parts(low, high)
}

#[test]
fn test_curve25519scalar_to_i256_conversion() {
    let positive_scalar = Scalar::from_i64(12345);
    let expected_i256 = I256::from_i128(12345);
    assert_eq!(convert_scalar_to_i256(&positive_scalar), expected_i256);

    let negative_scalar = Scalar::from_i64(-12345);
    let expected_i256 = I256::from_i128(-12345);
    assert_eq!(convert_scalar_to_i256(&negative_scalar), expected_i256);

    let max_scalar = Scalar::max_signed();
    let expected_max = I256::from_parts(MAX_SUPPORTED_LOW, MAX_SUPPORTED_HIGH);
    assert_eq!(convert_scalar_to_i256(&max_scalar), expected_max);

    let min_scalar = Scalar::from_i64(0);
    let expected_min = I256::from_i128(0);
    assert_eq!(convert_scalar_to_i256(&min_scalar), expected_min);
}

#[test]
fn test_curve25519scalar_i256_overflow_and_underflow() {
    // 2^255 - 1 overflows
    let i256_max = I256::from_parts(u128::MAX, i128::MAX);
    assert!(convert_i256_to_scalar(&i256_max).is_none());

    // MAX_SIGNED + 1 overflows
    let above = I256::from_parts(MAX_SUPPORTED_LOW + 1, MAX_SUPPORTED_HIGH);
    assert!(convert_i256_to_scalar(&above).is_none());

    // -2^255 underflows
    let i256_min = I256::from_parts(0, i128::MIN);
    assert!(i256_min.lt(&I256::from_parts(MIN_SUPPORTED_LOW, MIN_SUPPORTED_HIGH)));
    assert!(convert_i256_to_scalar(&i256_min).is_none());

    // -MAX_SIGNED - 1 underflows
    let below = I256::from_parts(MIN_SUPPORTED_LOW - 1, MIN_SUPPORTED_HIGH);
    assert!(convert_i256_to_scalar(&below).is_none());
}

#[test]
fn test_i256_curve25519scalar_negative() {
    let neg_one_i256_scalar = convert_i256_to_scalar(&I256::from_i128(-1));
    assert!(neg_one_i256_scalar.is_some());
    let neg_one_scalar = Scalar::from_i64(-1);
    assert_eq!(neg_one_i256_scalar.unwrap(), neg_one_scalar);
}

#[test]
fn test_i256_curve25519scalar_zero() {
    let zero_i256_scalar = convert_i256_to_scalar(&I256::from_i128(0));
    assert!(zero_i256_scalar.is_some());
    let zero_scalar = Scalar::zero();
    assert_eq!(zero_i256_scalar.unwrap(), zero_scalar);
}

#[test]
fn test_i256_curve25519scalar_positive() {
    let forty_two_i256_scalar = convert_i256_to_scalar(&I256::from_i128(42));
    let forty_two_scalar = Scalar::from_i64(42);
    assert_eq!(forty_two_i256_scalar.unwrap(), forty_two_scalar);
}

#[test]
fn test_i256_curve25519scalar_max_signed() {
    let max_signed = I256::from_parts(MAX_SUPPORTED_LOW, MAX_SUPPORTED_HIGH);
    let max_signed_scalar = Scalar::max_signed();
    let i256_scalar = convert_i256_to_scalar(&max_signed);
    assert!(i256_scalar.is_some());
    assert_eq!(i256_scalar.unwrap(), max_signed_scalar);
}

#[test]
fn test_i256_curve25519scalar_min_signed() {
    let min_signed = I256::from_parts(MIN_SUPPORTED_LOW, MIN_SUPPORTED_HIGH);
    let i256_scalar = convert_i256_to_scalar(&min_signed);
    // -MAX_SIGNED is ok
    assert!(i256_scalar.is_some());
    assert_eq!(
        i256_scalar.unwrap(),
        Scalar::max_signed().add(&Scalar::from_i64(1))
    );
}

#[test]
fn test_i256_curve25519scalar_random() {
    let mut rng = rand::thread_rng();
    for _ in 0..1000 {
        let i256_value = random_i256(&mut rng);
        let scalar = convert_i256_to_scalar(&i256_value).expect("Conversion failed");
        let back_to_i256 = convert_scalar_to_i256(&scalar);
        assert_eq!(i256_value, back_to_i256, "Round-trip conversion failed");
    }
}
