//! Hexadecimal text for 256-bit values: parsing of range bounds given as hex
//! strings, and the canonical fixed-width lowercase form in which a matched
//! key is reported.

use vstd::prelude::*;
use crate::u256::{U256, pow64, pow128, pow192, pow256, be_bytes_value};

verus! {

/// Why a hex string failed to parse as a 256-bit value.
#[derive(Clone, Copy, PartialEq, Eq, Structural, Debug)]
pub enum HexParseError {
    /// The string is empty.
    EmptyInput,
    /// Some character is not a hexadecimal digit.
    InvalidDigit,
    /// The digits denote a value of 2^256 or more.
    ValueTooLarge,
}

/// True for ASCII `0-9`, `a-f` and `A-F`.
pub open spec fn is_hex_digit(c: u8) -> bool {
    (48 <= c <= 57) || (97 <= c <= 102) || (65 <= c <= 70)
}

/// True for ASCII `0-9` and `a-f`, the canonical output alphabet.
pub open spec fn is_lower_hex_digit(c: u8) -> bool {
    (48 <= c <= 57) || (97 <= c <= 102)
}

/// The numeric value of a hex digit; zero on other bytes.
pub open spec fn hex_digit_value(c: u8) -> nat {
    if 48 <= c <= 57 {
        (c - 48) as nat
    } else if 97 <= c <= 102 {
        (c - 87) as nat
    } else if 65 <= c <= 70 {
        (c - 55) as nat
    } else {
        0
    }
}

/// The value of a big-endian hex digit string: the first digit is the most
/// significant. Leading zeros do not change the value.
pub open spec fn hex_value(s: Seq<u8>) -> nat
    decreases s.len(),
{
    if s.len() == 0 {
        0
    } else {
        hex_value(s.drop_last()) * 16 + hex_digit_value(s.last())
    }
}

/// 2^252: values below it can take one more hex digit without overflow.
pub open spec fn pow252() -> nat {
    0x1000_0000_0000_0000_0000_0000_0000_0000_0000_0000_0000_0000_0000_0000_0000_0000nat
}

/// 16^k, the weight of `k` trailing hex digits.
pub open spec fn pow16k(k: nat) -> nat
    decreases k,
{
    if k == 0 {
        1
    } else {
        16 * pow16k((k - 1) as nat)
    }
}

/// Appending one digit multiplies the value by 16 and adds the digit.
pub proof fn lemma_hex_value_push(s: Seq<u8>, c: u8)
    ensures
        hex_value(s.push(c)) == hex_value(s) * 16 + hex_digit_value(c),
{
    assert(s.push(c).drop_last() =~= s);
}

proof fn lemma_pow16k_pos(k: nat)
    ensures
        pow16k(k) >= 1,
        k >= 1 ==> pow16k(k) >= 16,
    decreases k,
{
    if k >= 1 {
        lemma_pow16k_pos((k - 1) as nat);
    }
}

/// Concatenation shifts the left part by the weight of the right part.
pub proof fn lemma_hex_value_append(a: Seq<u8>, b: Seq<u8>)
    ensures
        hex_value(a + b) == hex_value(a) * pow16k(b.len()) + hex_value(b),
    decreases b.len(),
{
    if b.len() == 0 {
        assert(a + b =~= a);
        assert(pow16k(0) == 1);
        assert(hex_value(b) == 0);
    } else {
        let b0 = b.drop_last();
        let x = b.last();
        assert(a + b =~= (a + b0).push(x));
        lemma_hex_value_push(a + b0, x);
        lemma_hex_value_append(a, b0);
        let va = hex_value(a);
        let v0 = hex_value(b0);
        let p0 = pow16k(b0.len());
        assert(hex_value(b) == v0 * 16 + hex_digit_value(x));
        assert(pow16k(b.len()) == 16 * p0);
        assert(hex_value(a + b) == (va * p0 + v0) * 16 + hex_digit_value(x));
        assert((va * p0 + v0) * 16 + hex_digit_value(x) == va * (16 * p0) + (v0 * 16
            + hex_digit_value(x))) by (nonlinear_arith);
        assert(va * (16 * p0) == va * pow16k(b.len()));
    }
}

/// A parsed prefix bounds the whole string's value from below.
proof fn lemma_hex_prefix_bound(s: Seq<u8>, i: int)
    requires
        0 <= i < s.len(),
    ensures
        hex_value(s) >= hex_value(s.take(i)) * 16,
{
    assert(s =~= s.take(i) + s.skip(i));
    lemma_hex_value_append(s.take(i), s.skip(i));
    lemma_pow16k_pos(s.skip(i).len());
    let v = hex_value(s.take(i));
    let p = pow16k(s.skip(i).len());
    assert(v * p >= v * 16) by (nonlinear_arith)
        requires
            p >= 16,
            v >= 0,
    ;
}

/// The numeric value of one hex digit character, if it is one.
fn hex_digit(c: u8) -> (r: Option<u8>)
    ensures
        r is Some <==> is_hex_digit(c),
        r is Some ==> r->0 == hex_digit_value(c) && r->0 < 16,
{
    if 48 <= c && c <= 57 {
        Some(c - 48)
    } else if 97 <= c && c <= 102 {
        Some(c - 87)
    } else if 65 <= c && c <= 70 {
        Some(c - 55)
    } else {
        None
    }
}

/// The canonical lowercase character of a digit value.
fn hex_char(n: u8) -> (r: u8)
    requires
        n < 16,
    ensures
        is_lower_hex_digit(r),
        hex_digit_value(r) == n,
{
    if n < 10 {
        48 + n
    } else {
        87 + n
    }
}

impl U256 {
    /// Multiplies by 16 and adds a digit: one step of hex accumulation.
    fn mul16_add(&self, d: u8) -> (r: U256)
        requires
            d < 16,
            self.as_nat() < pow252(),
        ensures
            r.as_nat() == self.as_nat() * 16 + d,
    {
        let c0: u64 = self.l0 >> 60;
        let c1: u64 = self.l1 >> 60;
        let c2: u64 = self.l2 >> 60;
        let n0: u64 = (self.l0 << 4) | (d as u64);
        let n1: u64 = (self.l1 << 4) | c0;
        let n2: u64 = (self.l2 << 4) | c1;
        let n3: u64 = (self.l3 << 4) | c2;
        proof {
            lemma_limb_shift4(self.l0, d as u64);
            lemma_limb_shift4(self.l1, c0);
            lemma_limb_shift4(self.l2, c1);
            lemma_limb_shift4(self.l3, c2);
            let l3 = self.l3;
            assert(l3 < 0x1000_0000_0000_0000) by {
                assert((l3 as nat) * pow192() <= self.as_nat());
            }
            assert(l3 >> 60 == 0) by (bit_vector)
                requires
                    l3 < 0x1000_0000_0000_0000u64,
            ;
        }
        U256 { l0: n0, l1: n1, l2: n2, l3: n3 }
    }
}

/// Shifting a limb left by one nibble, with an incoming carry.
proof fn lemma_limb_shift4(l: u64, c: u64)
    requires
        c < 16,
    ensures
        ((l << 4) | c) + ((l >> 60) as nat) * pow64() == (l as nat) * 16 + c,
        l >> 60 < 16,
{
    assert(((l << 4) | c) + (l >> 60) * 0x1_0000_0000_0000_0000 == l * 16 + c && l >> 60 < 16)
        by (bit_vector)
        requires
            c < 16u64,
    ;
}

impl U256 {
    /// Parses a big-endian hex string. Odd lengths and leading zeros are
    /// accepted; the empty string, a non-digit, and a value of 2^256 or more
    /// are the three ways to fail.
    pub fn from_hex(s: &[u8]) -> (r: Result<U256, HexParseError>)
        ensures
            match r {
                Ok(v) => s@.len() > 0 && (forall|i: int|
                    0 <= i < s@.len() ==> is_hex_digit(s@[i])) && hex_value(s@) < pow256()
                    && v.as_nat() == hex_value(s@),
                Err(HexParseError::EmptyInput) => s@.len() == 0,
                Err(HexParseError::InvalidDigit) => exists|i: int|
                    0 <= i < s@.len() && !is_hex_digit(s@[i]),
                Err(HexParseError::ValueTooLarge) => (forall|i: int|
                    0 <= i < s@.len() ==> is_hex_digit(s@[i])) && hex_value(s@) >= pow256(),
            },
    {
        let n = s.len();
        if n == 0 {
            return Err(HexParseError::EmptyInput);
        }
        let mut i: usize = 0;
        while i < n
            invariant
                n == s@.len(),
                0 <= i <= n,
                forall|j: int| 0 <= j < i ==> is_hex_digit(s@[j]),
            decreases n - i,
        {
            if hex_digit(s[i]).is_none() {
                return Err(HexParseError::InvalidDigit);
            }
            i = i + 1;
        }
        let mut acc = U256::zero();
        let mut k: usize = 0;
        while k < n
            invariant
                n == s@.len(),
                0 <= k <= n,
                forall|j: int| 0 <= j < n ==> is_hex_digit(s@[j]),
                acc.as_nat() == hex_value(s@.take(k as int)),
            decreases n - k,
        {
            if acc.l3 >= 0x1000_0000_0000_0000 {
                proof {
                    assert(acc.as_nat() >= pow252()) by {
                        assert(acc.as_nat() >= (acc.l3 as nat) * pow192());
                    }
                    lemma_hex_prefix_bound(s@, k as int);
                }
                return Err(HexParseError::ValueTooLarge);
            }
            let d = match hex_digit(s[k]) {
                Some(d) => d,
                None => {
                    return Err(HexParseError::InvalidDigit);
                },
            };
            proof {
                assert(acc.as_nat() < pow252()) by {
                    assert((acc.l1 as nat) * pow64() <= 0xffff_ffff_ffff_ffff * pow64());
                    assert((acc.l2 as nat) * pow128() <= 0xffff_ffff_ffff_ffff * pow128());
                    assert((acc.l3 as nat) * pow192() <= 0xfff_ffff_ffff_ffff * pow192());
                }
                assert(s@.take(k + 1).drop_last() =~= s@.take(k as int));
                assert(hex_value(s@.take(k + 1)) == hex_value(s@.take(k as int)) * 16
                    + hex_digit_value(s@[k as int]));
            }
            acc = acc.mul16_add(d);
            k = k + 1;
        }
        proof {
            assert(s@.take(n as int) =~= s@);
        }
        Ok(acc)
    }

    /// The canonical form of a candidate key: 64 lowercase hex digits,
    /// left-padded with zeros to the full width of the key space.
    pub fn to_padded_hex(&self) -> (r: Vec<u8>)
        ensures
            r@.len() == 64,
            forall|i: int| 0 <= i < 64 ==> is_lower_hex_digit(r@[i]),
            hex_value(r@) == self.as_nat(),
    {
        let bytes = self.to_be_bytes();
        let mut out: Vec<u8> = Vec::new();
        let mut i: usize = 0;
        while i < 32
            invariant
                bytes@.len() == 32,
                be_bytes_value(bytes@) == self.as_nat(),
                0 <= i <= 32,
                out@.len() == 2 * i,
                forall|j: int| 0 <= j < out@.len() ==> is_lower_hex_digit(out@[j]),
                hex_value(out@) == be_bytes_value(bytes@.take(i as int)),
            decreases 32 - i,
        {
            let b = bytes[i];
            let hi = b >> 4;
            let lo = b & 15;
            proof {
                assert((b >> 4) < 16 && (b & 15) < 16 && (b >> 4) * 16 + (b & 15) == b)
                    by (bit_vector);
            }
            let ghost before = out@;
            let ch = hex_char(hi);
            out.push(ch);
            let ghost mid = out@;
            let cl = hex_char(lo);
            out.push(cl);
            proof {
                lemma_hex_value_push(before, ch);
                lemma_hex_value_push(mid, cl);
                assert(bytes@.take(i + 1).drop_last() =~= bytes@.take(i as int));
                assert(be_bytes_value(bytes@.take(i + 1)) == be_bytes_value(bytes@.take(i as int))
                    * 256 + b);
            }
            i = i + 1;
        }
        proof {
            assert(bytes@.take(32) =~= bytes@);
        }
        out
    }
}

} // verus!
