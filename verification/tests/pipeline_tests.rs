use keyspace_search::config::{plan_search, ConfigError, WalletDescriptor};
use keyspace_search::pipeline::{DerivationPipeline, DeriveError, curve_order};
use keyspace_search::u256::U256;

fn hex(s: &str) -> Vec<u8> {
    s.as_bytes()
        .chunks(2)
        .map(|p| u8::from_str_radix(std::str::from_utf8(p).unwrap(), 16).unwrap())
        .collect()
}

#[test]
fn fingerprint_of_key_one_matches_known_value() {
    // The hashed public key of the secret scalar 1 is a well-known constant.
    let pipeline = DerivationPipeline::new();
    let fp = pipeline.fingerprint(&U256::from_u64(1)).unwrap();
    assert_eq!(fp, hex("751e76e8199196d454941c45d1b3a323f1433bd6"));
}

#[test]
fn fingerprint_is_deterministic_across_instances() {
    let a = DerivationPipeline::new();
    let b = DerivationPipeline::new();
    let candidate = U256::from_hex(b"0123456789abcdef0123456789abcdef").unwrap();
    let fa1 = a.fingerprint(&candidate).unwrap();
    let fa2 = a.fingerprint(&candidate).unwrap();
    let fb = b.fingerprint(&candidate).unwrap();
    assert_eq!(fa1, fa2);
    assert_eq!(fa1, fb);
    assert_eq!(fa1.len(), 20);
}

#[test]
fn zero_is_an_invalid_scalar() {
    let pipeline = DerivationPipeline::new();
    assert_eq!(pipeline.fingerprint(&U256::zero()), Err(DeriveError::InvalidScalar));
}

#[test]
fn curve_order_and_above_are_invalid_scalars() {
    let pipeline = DerivationPipeline::new();
    let order = curve_order();
    assert_eq!(pipeline.fingerprint(&order), Err(DeriveError::InvalidScalar));
    assert_eq!(pipeline.fingerprint(&order.succ()), Err(DeriveError::InvalidScalar));
    // The largest valid scalar still derives.
    let last = order.sub(&U256::from_u64(1));
    assert!(pipeline.fingerprint(&last).is_ok());
}

fn descriptor(address: &str) -> WalletDescriptor {
    WalletDescriptor {
        number: 1,
        lower_hex: b"1".to_vec(),
        upper_hex: b"ff".to_vec(),
        address: address.to_string(),
    }
}

#[test]
fn target_address_normalizes_to_known_hash() {
    // The address of the secret scalar 1.
    let plan = plan_search(&descriptor("1BgGZ9tcN4rm9KBzDn7KprQz87SZ26SAMH")).unwrap();
    assert_eq!(plan.target, hex("751e76e8199196d454941c45d1b3a323f1433bd6"));
}

#[test]
fn target_address_search_round_trip() {
    // Searching for the normalized target of key 1's address finds key 1.
    let plan = plan_search(&descriptor("1BgGZ9tcN4rm9KBzDn7KprQz87SZ26SAMH")).unwrap();
    let pipeline = DerivationPipeline::new();
    assert_eq!(pipeline.fingerprint(&U256::from_u64(1)).unwrap(), plan.target);
}

#[test]
fn garbage_addresses_are_rejected() {
    assert!(matches!(
        plan_search(&descriptor("not an address")),
        Err(ConfigError::InvalidTargetAddress)
    ));
    assert!(matches!(plan_search(&descriptor("")), Err(ConfigError::InvalidTargetAddress)));
}
