use keyspace_search::config::{
    WalletDescriptor, ConfigError, DurationParts, find_wallet, plan_search,
};
use keyspace_search::u256::U256;

fn descriptor(lower: &str, upper: &str, address: &str) -> WalletDescriptor {
    WalletDescriptor {
        number: 1,
        lower_hex: lower.as_bytes().to_vec(),
        upper_hex: upper.as_bytes().to_vec(),
        address: address.to_string(),
    }
}

const KEY_ONE_ADDRESS: &str = "1BgGZ9tcN4rm9KBzDn7KprQz87SZ26SAMH";

#[test]
fn plan_search_accepts_a_valid_descriptor() {
    let w = descriptor("1", "fffff", KEY_ONE_ADDRESS);
    let plan = plan_search(&w).unwrap();
    assert_eq!(plan.range.lower, U256::from_u64(1));
    assert_eq!(plan.range.upper, U256::from_u64(0xfffff));
    assert_eq!(plan.target.len(), 20);
}

#[test]
fn plan_search_rejects_bad_lower_bound() {
    let w = descriptor("xyz", "fffff", KEY_ONE_ADDRESS);
    assert!(matches!(plan_search(&w), Err(ConfigError::InvalidLowerBound)));
    let w = descriptor("", "fffff", KEY_ONE_ADDRESS);
    assert!(matches!(plan_search(&w), Err(ConfigError::InvalidLowerBound)));
}

#[test]
fn plan_search_rejects_bad_upper_bound() {
    let w = descriptor("1", "ggg", KEY_ONE_ADDRESS);
    assert!(matches!(plan_search(&w), Err(ConfigError::InvalidUpperBound)));
}

#[test]
fn plan_search_rejects_reversed_bounds() {
    let w = descriptor("ff", "1", KEY_ONE_ADDRESS);
    assert!(matches!(plan_search(&w), Err(ConfigError::EmptyRange)));
}

#[test]
fn plan_search_rejects_bad_address() {
    let w = descriptor("1", "ff", "no such address");
    assert!(matches!(plan_search(&w), Err(ConfigError::InvalidTargetAddress)));
}

#[test]
fn find_wallet_picks_the_right_entry() {
    let wallets = vec![
        descriptor("1", "2", KEY_ONE_ADDRESS),
        WalletDescriptor { number: 7, ..descriptor("3", "4", KEY_ONE_ADDRESS) },
    ];
    assert_eq!(find_wallet(&wallets, 7), Some(1));
    assert_eq!(find_wallet(&wallets, 1), Some(0));
    assert_eq!(find_wallet(&wallets, 9), None);
}

#[test]
fn duration_breakdown_is_exact() {
    let d = DurationParts::from_seconds(90061);
    assert_eq!((d.days, d.hours, d.minutes, d.seconds), (1, 1, 1, 1));
    let d = DurationParts::from_seconds(0);
    assert_eq!((d.days, d.hours, d.minutes, d.seconds), (0, 0, 0, 0));
    let d = DurationParts::from_seconds(86399);
    assert_eq!((d.days, d.hours, d.minutes, d.seconds), (0, 23, 59, 59));
}
