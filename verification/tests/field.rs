use mpt_update::field::Fe;

const MODULUS: [u64; 4] =
    [0x43e1f593f0000001, 0x2833e84879b97091, 0xb85045b68181585d, 0x30644e72e131a029];

fn limbs(l: [u64; 4]) -> Fe {
    Fe::from_limbs(l).unwrap()
}

// 0x1234567890abcdef1122334455667788 times two to the power of 100.
fn c() -> Fe {
    limbs([0x0, 0x5667788000000000, 0x0abcdef112233445, 0x123456789])
}

fn b() -> Fe {
    Fe::from_u128(0xfedcba09876543210a0b0c0d0e0f1011)
}

#[test]
fn from_limbs_accepts_what_is_below_the_modulus() {
    let mut top = MODULUS;
    top[0] -= 1;
    assert_eq!(Fe::from_limbs(top).unwrap().to_limbs(), top);
    assert_eq!(Fe::from_limbs([0, 0, 0, 0]).unwrap(), Fe::zero());
}

#[test]
fn from_limbs_rejects_the_modulus_and_above() {
    assert!(Fe::from_limbs(MODULUS).is_none());
    let mut above = MODULUS;
    above[0] += 1;
    assert!(Fe::from_limbs(above).is_none());
    assert!(Fe::from_limbs([0, 0, 0, 0x30644e72e131a02a]).is_none());
    assert!(Fe::from_limbs([u64::MAX; 4]).is_none());
    // A higher limb decides before a lower one.
    assert!(Fe::from_limbs([u64::MAX, u64::MAX, u64::MAX, 0x30644e72e131a028]).is_some());
    assert!(Fe::from_limbs([0, 0, 0xb85045b68181585e, 0x30644e72e131a029]).is_none());
    assert!(Fe::from_limbs([0, 0x2833e84879b97092, 0xb85045b68181585d, 0x30644e72e131a029]).is_none());
}

#[test]
fn small_numbers_keep_their_limbs() {
    assert_eq!(Fe::from_u64(7).to_limbs(), [7, 0, 0, 0]);
    assert_eq!(Fe::one().to_limbs(), [1, 0, 0, 0]);
    assert_eq!(Fe::from_bool(true), Fe::one());
    assert_eq!(Fe::from_bool(false), Fe::zero());
    assert_eq!(
        Fe::from_u128(0xfedcba09876543210a0b0c0d0e0f1011).to_limbs(),
        [0x0a0b0c0d0e0f1011, 0xfedcba0987654321, 0, 0]
    );
    assert_eq!(
        Fe::from_u160(0xfedcba09876543210a0b0c0d0e0f1011, 0xdeadbeef).to_limbs(),
        [0x0e0f1011deadbeef, 0x876543210a0b0c0d, 0xfedcba09, 0]
    );
}

#[test]
fn zero_is_recognised() {
    assert!(Fe::zero().is_zero());
    assert!(!Fe::one().is_zero());
    assert!(!limbs([0, 0, 0, 1]).is_zero());
    assert!(Fe::one().equals(&Fe::from_u64(1)));
    assert!(!Fe::one().equals(&limbs([1, 0, 0, 1])));
}

#[test]
fn sum_wraps_at_the_modulus() {
    let mut top = MODULUS;
    top[0] -= 1;
    let minus_one = limbs(top);
    assert_eq!(minus_one.add(&Fe::from_u64(2)), Fe::one());
    assert_eq!(minus_one.add(&Fe::one()), Fe::zero());
    assert_eq!(Fe::from_u64(40).add(&Fe::from_u64(2)), Fe::from_u64(42));
    assert_eq!(
        c().add(&minus_one).to_limbs(),
        [0xffffffffffffffff, 0x5667787fffffffff, 0x0abcdef112233445, 0x123456789]
    );
}

#[test]
fn difference_wraps_below_zero() {
    let mut top = MODULUS;
    top[0] -= 1;
    assert_eq!(Fe::zero().sub(&Fe::one()).to_limbs(), top);
    assert_eq!(Fe::from_u64(42).sub(&Fe::from_u64(2)), Fe::from_u64(40));
    assert_eq!(
        b().sub(&c()).to_limbs(),
        [0x4ded01a0fe0f1012, 0xd0a929d2011eb3b2, 0xad9366c56f5e2418, 0x30644e71bdec38a0]
    );
}

#[test]
fn product_is_reduced() {
    assert_eq!(Fe::from_u64(6).mul(&Fe::from_u64(7)), Fe::from_u64(42));
    let a = Fe::from_u128(0x1234567890abcdef1122334455667788);
    assert_eq!(
        a.mul(&b()).to_limbs(),
        [0x9accba52843e7008, 0x42521f3188c8f8d4, 0xd40fcd610bd95234, 0x121fa000a3723a57]
    );
    assert_eq!(
        c().mul(&b()).to_limbs(),
        [0xe2d8bd31490b95cc, 0x4edf7022808f43e8, 0x2373b30f7556d6e4, 0x1143ca4f5521ccc1]
    );
    let two_128 = limbs([0, 0, 1, 0]);
    assert_eq!(
        two_128.square().to_limbs(),
        [0xac96341c4ffffffb, 0x36fc76959f60cd29, 0x666ea36f7879462e, 0x0e0a77c19a07df2f]
    );
    let mut top = MODULUS;
    top[0] -= 1;
    assert_eq!(limbs(top).square(), Fe::one());
}

#[test]
fn inverse_times_value_is_one() {
    let inverse = c().invert().unwrap();
    assert_eq!(
        inverse.to_limbs(),
        [0x4226e3d3fcdf811c, 0x0d349d09625cbe25, 0x4e0d4e0c13371299, 0x0fe8f1e72cdfda2c]
    );
    assert_eq!(inverse.mul(&c()), Fe::one());
    assert_eq!(Fe::one().invert(), Some(Fe::one()));
}

#[test]
fn zero_has_no_inverse() {
    assert_eq!(Fe::zero().invert(), None);
    assert_eq!(Fe::zero().inverse_or_zero(), Fe::zero());
    assert_eq!(Fe::from_u64(2).inverse_or_zero().mul(&Fe::from_u64(2)), Fe::one());
}

#[test]
fn inverse_of_two_to_the_64_is_the_constant() {
    assert_eq!(
        mpt_update::config::inverse_of_two_64_element().to_limbs(),
        [0x2d3e8053e396ee4d, 0xca478dbeab3c92cd, 0xb2d8f06f77f52a93, 0x24d6ba07f7aa8f04]
    );
}
