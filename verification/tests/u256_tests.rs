use keyspace_search::u256::U256;
use keyspace_search::hexstr::HexParseError;

fn u(v: u64) -> U256 {
    U256::from_u64(v)
}

#[test]
fn from_hex_parses_simple_values() {
    let v = U256::from_hex(b"1a2b").unwrap();
    assert_eq!(v, u(0x1a2b));
    let v = U256::from_hex(b"0").unwrap();
    assert_eq!(v, U256::zero());
    let v = U256::from_hex(b"F").unwrap();
    assert_eq!(v, u(15));
}

#[test]
fn from_hex_accepts_odd_length_and_leading_zeros() {
    let v = U256::from_hex(b"abc").unwrap();
    assert_eq!(v, u(0xabc));
    let v = U256::from_hex(b"000000ff").unwrap();
    assert_eq!(v, u(0xff));
}

#[test]
fn from_hex_parses_full_width() {
    let s = b"ffffffffffffffffffffffffffffffffffffffffffffffffffffffffffffffff";
    let v = U256::from_hex(s).unwrap();
    assert_eq!(v.l0, u64::MAX);
    assert_eq!(v.l1, u64::MAX);
    assert_eq!(v.l2, u64::MAX);
    assert_eq!(v.l3, u64::MAX);
}

#[test]
fn from_hex_rejects_empty() {
    assert_eq!(U256::from_hex(b""), Err(HexParseError::EmptyInput));
}

#[test]
fn from_hex_rejects_bad_digit() {
    assert_eq!(U256::from_hex(b"12g4"), Err(HexParseError::InvalidDigit));
}

#[test]
fn from_hex_rejects_too_large() {
    let s = b"10000000000000000000000000000000000000000000000000000000000000000";
    assert_eq!(s.len(), 65);
    assert_eq!(U256::from_hex(s), Err(HexParseError::ValueTooLarge));
}

#[test]
fn to_padded_hex_is_full_width_lowercase() {
    let v = U256::from_hex(b"1A2B3C").unwrap();
    let hex = v.to_padded_hex();
    assert_eq!(hex.len(), 64);
    assert_eq!(String::from_utf8(hex).unwrap(), format!("{:0>64}", "1a2b3c"));
}

#[test]
fn hex_round_trip() {
    let s = b"deadbeef00112233445566778899aabbccddeeff0102030405060708090a0b0c";
    let v = U256::from_hex(s).unwrap();
    let out = v.to_padded_hex();
    assert_eq!(out, s.to_vec());
}

#[test]
fn byte_round_trip() {
    let v = U256::from_hex(b"0123456789abcdef").unwrap();
    let bytes = v.to_be_bytes();
    assert_eq!(bytes.len(), 32);
    assert_eq!(U256::from_be_bytes(bytes.as_slice()), v);
}

#[test]
fn arithmetic_basics() {
    let a = u(1000);
    let b = u(234);
    assert_eq!(a.add(&b), u(1234));
    assert_eq!(a.sub(&b), u(766));
    assert_eq!(a.succ(), u(1001));
    assert!(b.lt(&a));
    assert!(b.le(&a));
    assert!(a.le(&a));
    assert!(!a.lt(&a));
    assert!(a.equals(&a));
    assert!(!a.equals(&b));
}

#[test]
fn arithmetic_carries_across_limbs() {
    let max_low = U256::from_hex(b"ffffffffffffffff").unwrap();
    let one = u(1);
    let carried = max_low.add(&one);
    assert_eq!(carried, U256::from_hex(b"10000000000000000").unwrap());
    assert_eq!(carried.sub(&one), max_low);
}

#[test]
fn division_with_remainder() {
    let v = u(1001);
    let (q, r) = v.div_rem_u64(10);
    assert_eq!(q, u(100));
    assert_eq!(r, 1);
    let wide = U256::from_hex(b"100000000000000000").unwrap();
    let (q, r) = wide.div_rem_u64(16);
    assert_eq!(q, U256::from_hex(b"10000000000000000").unwrap());
    assert_eq!(r, 0);
}
