use flow_field::{noise_seed, resolve_seed};

#[test]
fn configured_seed_is_kept() {
    assert_eq!(resolve_seed(Some(42), 123_456_789), 42);
    assert_eq!(resolve_seed(Some(u64::MAX), 0), u64::MAX);
}

#[test]
fn missing_seed_falls_back_to_clock() {
    assert_eq!(resolve_seed(None, 123_456_789), 123_456_789);
}

#[test]
fn zero_seed_falls_back_to_clock() {
    assert_eq!(resolve_seed(Some(0), 987_654_321), 987_654_321);
}

#[test]
fn clock_reading_keeps_its_low_bits() {
    let reading: u128 = (7u128 << 64) + 99;
    assert_eq!(resolve_seed(None, reading), 99);
    assert_eq!(resolve_seed(Some(0), u128::MAX), u64::MAX);
}

#[test]
fn noise_seed_takes_low_half() {
    assert_eq!(noise_seed(42), 42);
    assert_eq!(noise_seed(0x1_0000_002A), 42);
    assert_eq!(noise_seed(u64::MAX), u32::MAX);
    assert_eq!(noise_seed(0xFFFF_FFFF_0000_0000), 0);
}
