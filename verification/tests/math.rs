use mine_digger::math::isqrt_ceil;

#[test]
fn isqrt_ceil_of_small_values() {
    assert_eq!(isqrt_ceil(0), 0);
    assert_eq!(isqrt_ceil(1), 1);
    assert_eq!(isqrt_ceil(2), 2);
    assert_eq!(isqrt_ceil(3), 2);
    assert_eq!(isqrt_ceil(4), 2);
    assert_eq!(isqrt_ceil(5), 3);
    assert_eq!(isqrt_ceil(35), 6);
    assert_eq!(isqrt_ceil(36), 6);
    assert_eq!(isqrt_ceil(37), 7);
}

#[test]
fn isqrt_ceil_of_speed_squares() {
    assert_eq!(isqrt_ceil(25_000_000), 5000);
    assert_eq!(isqrt_ceil(25_000_001), 5001);
    assert_eq!(isqrt_ceil(100_000_000), 10_000);
    assert_eq!(isqrt_ceil(18_000_000), 4243);
}

#[test]
fn isqrt_ceil_of_extreme_values() {
    let m = u64::MAX as u128;
    assert_eq!(isqrt_ceil(m * m), u64::MAX);
    assert_eq!(isqrt_ceil(m * m - 1), u64::MAX);
    let k = 1u128 << 126;
    assert_eq!(isqrt_ceil(k), 1u64 << 63);
    assert_eq!(isqrt_ceil(k + 1), (1u64 << 63) + 1);
}
