use keyspace_search::range::KeyRange;
use keyspace_search::u256::U256;

fn range(lo: u64, hi: u64) -> KeyRange {
    KeyRange { lower: U256::from_u64(lo), upper: U256::from_u64(hi) }
}

fn check_exact_cover(r: KeyRange, parts: &[KeyRange]) {
    // The sub-ranges sit end to end: no gap, no overlap, full cover.
    assert!(!parts.is_empty());
    assert_eq!(parts[0].lower, r.lower);
    assert_eq!(parts[parts.len() - 1].upper, r.upper);
    for p in parts {
        assert!(p.lower.le(&p.upper));
    }
    for w in parts.windows(2) {
        assert_eq!(w[0].upper.succ(), w[1].lower);
    }
}

#[test]
fn partition_even_split() {
    let r = range(0, 99);
    let parts = r.partition(4);
    assert_eq!(parts.len(), 4);
    check_exact_cover(r, &parts);
    // width 99, chunk 99/4 = 24; the last absorbs the remainder.
    assert_eq!(parts[0], range(0, 23));
    assert_eq!(parts[1], range(24, 47));
    assert_eq!(parts[2], range(48, 71));
    assert_eq!(parts[3], range(72, 99));
}

#[test]
fn partition_remainder_goes_last() {
    let r = range(10, 20);
    let parts = r.partition(3);
    assert_eq!(parts.len(), 3);
    check_exact_cover(r, &parts);
    assert_eq!(parts[0], range(10, 12));
    assert_eq!(parts[1], range(13, 15));
    assert_eq!(parts[2], range(16, 20));
}

#[test]
fn partition_single_worker() {
    let r = range(5, 9);
    let parts = r.partition(1);
    assert_eq!(parts.len(), 1);
    assert_eq!(parts[0], r);
}

#[test]
fn partition_fewer_keys_than_workers() {
    let r = range(7, 9);
    let parts = r.partition(8);
    assert_eq!(parts.len(), 3);
    check_exact_cover(r, &parts);
    for (i, p) in parts.iter().enumerate() {
        assert_eq!(p.lower, U256::from_u64(7 + i as u64));
        assert_eq!(p.upper, p.lower);
    }
}

#[test]
fn partition_single_value_range() {
    let r = range(42, 42);
    let parts = r.partition(4);
    assert_eq!(parts.len(), 1);
    assert_eq!(parts[0], r);
}

#[test]
fn partition_wide_range() {
    let lo = U256::from_hex(b"100000000000000000000").unwrap();
    let hi = U256::from_hex(b"2000000000000000000ff").unwrap();
    let r = KeyRange { lower: lo, upper: hi };
    let parts = r.partition(7);
    assert_eq!(parts.len(), 7);
    check_exact_cover(r, &parts);
}

#[test]
fn key_range_new_checks_order() {
    assert!(KeyRange::new(U256::from_u64(3), U256::from_u64(2)).is_none());
    let r = KeyRange::new(U256::from_u64(2), U256::from_u64(3)).unwrap();
    assert_eq!(r, range(2, 3));
}
