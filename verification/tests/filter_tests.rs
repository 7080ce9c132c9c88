use keyspace_search::filter::MembershipFilter;

#[test]
fn contains_true_immediately_after_insert() {
    let mut f = MembershipFilter::new(4096, 4, 1000);
    let keys: Vec<Vec<u8>> = (0u64..50).map(|i| i.to_be_bytes().to_vec()).collect();
    for k in &keys {
        f.insert(k);
        assert!(f.contains(k));
    }
    // Still present after later insertions: no false negatives.
    for k in &keys {
        assert!(f.contains(k));
    }
}

#[test]
fn fresh_filter_reports_nothing() {
    let f = MembershipFilter::new(4096, 4, 1000);
    assert!(!f.contains(&b"anything".to_vec()));
    assert!(!f.contains(&vec![0u8; 32]));
}

#[test]
fn counter_resets_at_ceiling_and_forgets() {
    let mut f = MembershipFilter::new(4096, 4, 3);
    let k1 = b"key-one".to_vec();
    let k2 = b"key-two".to_vec();
    let k3 = b"key-three".to_vec();
    f.insert(&k1);
    assert_eq!(f.insertion_count(), 1);
    assert!(f.contains(&k1));
    f.insert(&k2);
    assert_eq!(f.insertion_count(), 2);
    assert!(f.contains(&k2));
    // The third insertion reaches the ceiling: the filter is replaced by a
    // fresh empty instance and the counter returns to zero.
    f.insert(&k3);
    assert_eq!(f.insertion_count(), 0);
    assert!(!f.contains(&k1));
    assert!(!f.contains(&k2));
    assert!(!f.contains(&k3));
    // The fresh filter keeps working.
    f.insert(&k1);
    assert_eq!(f.insertion_count(), 1);
    assert!(f.contains(&k1));
}
