use beta_server::util::{base36_from_i32, base36_from_u64, decimal_from_u8, lossy_u64_from_base36};

#[test]
fn test_lossy_u64_from_base36() {
    assert_eq!(lossy_u64_from_base36("ya"), 1234);
    assert_eq!(lossy_u64_from_base36("7cik2"), 12341234);
    assert_eq!(lossy_u64_from_base36("0"), 0);
}

#[test]
fn test_base36_from_u64() {
    assert_eq!(base36_from_u64(1234), "ya");
    assert_eq!(base36_from_u64(12341234), "7cik2");
    assert_eq!(base36_from_u64(0), "0");
}

#[test]
fn test_base36_from_i32() {
    assert_eq!(base36_from_i32(-13), "-d");
    assert_eq!(base36_from_i32(0), "0");
}

#[test]
fn lossy_base36_skips_other_characters() {
    assert_eq!(lossy_u64_from_base36("y-A a!"), 1234);
    assert_eq!(lossy_u64_from_base36(""), 0);
}

#[test]
fn lossy_base36_wraps_at_64_bits() {
    // 36^13 does not fit in 64 bits: the value wraps.
    let exact: u128 = 36u128.pow(13);
    assert_eq!(lossy_u64_from_base36("10000000000000"), (exact % (1u128 << 64)) as u64);
}

#[test]
fn base36_round_trip_on_canonical_text() {
    for s in ["0", "1", "z", "10", "ya", "7cik2", "3w5e11264sgsf"] {
        assert_eq!(base36_from_u64(lossy_u64_from_base36(s)), s);
    }
}

#[test]
fn base36_of_extreme_values() {
    assert_eq!(base36_from_u64(u64::MAX), "3w5e11264sgsf");
    assert_eq!(base36_from_i32(i32::MIN), "-zik0zk");
    assert_eq!(base36_from_i32(35), "z");
}

#[test]
fn decimal_of_bytes() {
    assert_eq!(decimal_from_u8(0), "0");
    assert_eq!(decimal_from_u8(7), "7");
    assert_eq!(decimal_from_u8(42), "42");
    assert_eq!(decimal_from_u8(200), "200");
    assert_eq!(decimal_from_u8(255), "255");
}
