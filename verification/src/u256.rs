//! Fixed-width 256-bit unsigned integers, the arithmetic backbone of the key
//! space: candidates, range bounds and range widths are all `U256` values.

use vstd::prelude::*;

verus! {

/// 2^64, the weight of the second limb.
const LIMB_BASE: u128 = 0x1_0000_0000_0000_0000;

/// A 256-bit unsigned integer, stored as four 64-bit limbs, least
/// significant first: the value is `l0 + l1*2^64 + l2*2^128 + l3*2^192`.
#[derive(Clone, Copy, PartialEq, Eq, Structural, Debug)]
pub struct U256 {
    pub l0: u64,
    pub l1: u64,
    pub l2: u64,
    pub l3: u64,
}

/// 2^64 as a mathematical value.
pub open spec fn pow64() -> nat {
    0x1_0000_0000_0000_0000nat
}

/// 2^128 as a mathematical value.
pub open spec fn pow128() -> nat {
    0x1_0000_0000_0000_0000_0000_0000_0000_0000nat
}

/// 2^192 as a mathematical value.
pub open spec fn pow192() -> nat {
    0x1_0000_0000_0000_0000_0000_0000_0000_0000_0000_0000_0000_0000nat
}

/// 2^256, one past the largest representable value.
pub open spec fn pow256() -> nat {
    0x1_0000_0000_0000_0000_0000_0000_0000_0000_0000_0000_0000_0000_0000_0000_0000_0000nat
}

impl U256 {
    /// The mathematical value of this integer.
    pub open spec fn as_nat(self) -> nat {
        (self.l0 as nat) + (self.l1 as nat) * pow64() + (self.l2 as nat) * pow128() + (
        self.l3 as nat) * pow192()
    }

    /// Every `U256` value is below 2^256.
    pub proof fn lemma_as_nat_bound(self)
        ensures
            self.as_nat() < pow256(),
    {
    }

    /// Equal values have equal limbs: `as_nat` is injective.
    pub proof fn lemma_as_nat_injective(self, other: U256)
        requires
            self.as_nat() == other.as_nat(),
        ensures
            self == other,
    {
        assert(self.l0 == other.l0 && self.l1 == other.l1 && self.l2 == other.l2
            && self.l3 == other.l3) by {
            let d0 = self.l0 as int - other.l0 as int;
            let d1 = self.l1 as int - other.l1 as int;
            let d2 = self.l2 as int - other.l2 as int;
            let d3 = self.l3 as int - other.l3 as int;
            assert(d0 + d1 * pow64() + d2 * pow128() + d3 * pow192() == 0);
        }
    }

    pub fn zero() -> (r: U256)
        ensures
            r.as_nat() == 0,
    {
        U256 { l0: 0, l1: 0, l2: 0, l3: 0 }
    }

    pub fn from_u64(v: u64) -> (r: U256)
        ensures
            r.as_nat() == v,
    {
        U256 { l0: v, l1: 0, l2: 0, l3: 0 }
    }

    /// Limb-wise equality test, sound for the mathematical value.
    pub fn equals(&self, other: &U256) -> (r: bool)
        ensures
            r == (self.as_nat() == other.as_nat()),
    {
        let r = self.l0 == other.l0 && self.l1 == other.l1 && self.l2 == other.l2
            && self.l3 == other.l3;
        proof {
            if !r {
                if self.as_nat() == other.as_nat() {
                    self.lemma_as_nat_injective(*other);
                }
            }
        }
        r
    }

    /// Strict comparison by limbs, most significant first.
    pub fn lt(&self, other: &U256) -> (r: bool)
        ensures
            r == (self.as_nat() < other.as_nat()),
    {
        let r = if self.l3 != other.l3 {
            self.l3 < other.l3
        } else if self.l2 != other.l2 {
            self.l2 < other.l2
        } else if self.l1 != other.l1 {
            self.l1 < other.l1
        } else {
            self.l0 < other.l0
        };
        proof {
            lemma_limb_order(*self, *other);
            lemma_limb_order(*other, *self);
        }
        r
    }

    pub fn le(&self, other: &U256) -> (r: bool)
        ensures
            r == (self.as_nat() <= other.as_nat()),
    {
        !other.lt(self)
    }

    /// Sum of two 256-bit values; the caller must know it does not wrap.
    pub fn add(&self, other: &U256) -> (r: U256)
        requires
            self.as_nat() + other.as_nat() < pow256(),
        ensures
            r.as_nat() == self.as_nat() + other.as_nat(),
    {
        let s0: u128 = self.l0 as u128 + other.l0 as u128;
        let r0: u64 = s0 as u64;
        let c0: u64 = (s0 >> 64) as u64;
        let s1: u128 = self.l1 as u128 + other.l1 as u128 + c0 as u128;
        let r1: u64 = s1 as u64;
        let c1: u64 = (s1 >> 64) as u64;
        let s2: u128 = self.l2 as u128 + other.l2 as u128 + c1 as u128;
        let r2: u64 = s2 as u64;
        let c2: u64 = (s2 >> 64) as u64;
        let s3: u128 = self.l3 as u128 + other.l3 as u128 + c2 as u128;
        let r3: u64 = s3 as u64;
        let c3: u64 = (s3 >> 64) as u64;
        proof {
            lemma_split_u128(s0);
            lemma_split_u128(s1);
            lemma_split_u128(s2);
            lemma_split_u128(s3);
        }
        U256 { l0: r0, l1: r1, l2: r2, l3: r3 }
    }

    /// Difference `self - other`; the caller must know `other <= self`.
    pub fn sub(&self, other: &U256) -> (r: U256)
        requires
            other.as_nat() <= self.as_nat(),
        ensures
            r.as_nat() == self.as_nat() - other.as_nat(),
    {
        let d0: u128 = LIMB_BASE + self.l0 as u128 - other.l0 as u128;
        let r0: u64 = d0 as u64;
        proof {
            lemma_split_u128(d0);
        }
        let b0: u64 = 1 - (d0 >> 64) as u64;
        let d1: u128 = LIMB_BASE + self.l1 as u128 - other.l1 as u128 - b0 as u128;
        let r1: u64 = d1 as u64;
        proof {
            lemma_split_u128(d1);
        }
        let b1: u64 = 1 - (d1 >> 64) as u64;
        let d2: u128 = LIMB_BASE + self.l2 as u128 - other.l2 as u128 - b1 as u128;
        let r2: u64 = d2 as u64;
        proof {
            lemma_split_u128(d2);
        }
        let b2: u64 = 1 - (d2 >> 64) as u64;
        let d3: u128 = LIMB_BASE + self.l3 as u128 - other.l3 as u128 - b2 as u128;
        let r3: u64 = d3 as u64;
        proof {
            lemma_split_u128(d3);
        }
        let b3: u64 = 1 - (d3 >> 64) as u64;
        proof {
            let r = U256 { l0: r0, l1: r1, l2: r2, l3: r3 };
            assert(r.as_nat() == self.as_nat() - other.as_nat()
                + b3 * pow256());
            if b3 == 1 {
                r.lemma_as_nat_bound();
            }
        }
        U256 { l0: r0, l1: r1, l2: r2, l3: r3 }
    }

    /// Division by a 64-bit divisor, longhand over the limbs: returns the
    /// quotient and the remainder.
    pub fn div_rem_u64(&self, d: u64) -> (qr: (U256, u64))
        requires
            d >= 1,
        ensures
            qr.0.as_nat() * d + qr.1 == self.as_nat(),
            qr.1 < d,
            qr.0.as_nat() == self.as_nat() / (d as nat),
    {
        let (q3, r3) = div_step(0, self.l3, d);
        let (q2, r2) = div_step(r3, self.l2, d);
        let (q1, r1) = div_step(r2, self.l1, d);
        let (q0, r0) = div_step(r1, self.l0, d);
        let q = U256 { l0: q0, l1: q1, l2: q2, l3: q3 };
        proof {
            let l0 = self.l0 as int;
            let l1 = self.l1 as int;
            let l2 = self.l2 as int;
            let l3 = self.l3 as int;
            assert((q0 + q1 * 0x1_0000_0000_0000_0000 + q2
                * 0x1_0000_0000_0000_0000_0000_0000_0000_0000 + q3
                * 0x1_0000_0000_0000_0000_0000_0000_0000_0000_0000_0000_0000_0000) * d + r0 == l0
                + l1 * 0x1_0000_0000_0000_0000 + l2 * 0x1_0000_0000_0000_0000_0000_0000_0000_0000
                + l3 * 0x1_0000_0000_0000_0000_0000_0000_0000_0000_0000_0000_0000_0000)
                by (nonlinear_arith)
                requires
                    q3 * d + r3 == l3,
                    q2 * d + r2 == r3 * 0x1_0000_0000_0000_0000 + l2,
                    q1 * d + r1 == r2 * 0x1_0000_0000_0000_0000 + l1,
                    q0 * d + r0 == r1 * 0x1_0000_0000_0000_0000 + l0,
            ;
            vstd::arithmetic::div_mod::lemma_fundamental_div_mod_converse(
                self.as_nat() as int,
                d as int,
                q.as_nat() as int,
                r0 as int,
            );
        }
        (q, r0)
    }

    /// The next value up; the caller must know the value is not the maximum.
    pub fn succ(&self) -> (r: U256)
        requires
            self.as_nat() + 1 < pow256(),
        ensures
            r.as_nat() == self.as_nat() + 1,
    {
        let one = U256::from_u64(1);
        self.add(&one)
    }
}

/// The value of a big-endian byte string: the first byte is the most
/// significant.
pub open spec fn be_bytes_value(s: Seq<u8>) -> nat
    decreases s.len(),
{
    if s.len() == 0 {
        0
    } else {
        be_bytes_value(s.drop_last()) * 256 + s.last() as nat
    }
}

/// Appending one byte multiplies the value by 256 and adds the byte.
pub proof fn lemma_be_value_push(s: Seq<u8>, b: u8)
    ensures
        be_bytes_value(s.push(b)) == be_bytes_value(s) * 256 + b,
{
    assert(s.push(b).drop_last() =~= s);
}

/// 256^k, the weight of `k` trailing bytes.
pub open spec fn pow256k(k: nat) -> nat
    decreases k,
{
    if k == 0 {
        1
    } else {
        256 * pow256k((k - 1) as nat)
    }
}

/// Concatenation shifts the left part by the weight of the right part.
pub proof fn lemma_be_value_append(a: Seq<u8>, b: Seq<u8>)
    ensures
        be_bytes_value(a + b) == be_bytes_value(a) * pow256k(b.len()) + be_bytes_value(b),
    decreases b.len(),
{
    if b.len() == 0 {
        assert(a + b =~= a);
        assert(pow256k(0) == 1);
        assert(be_bytes_value(b) == 0);
    } else {
        let b0 = b.drop_last();
        let x = b.last();
        assert(a + b =~= (a + b0).push(x));
        lemma_be_value_push(a + b0, x);
        lemma_be_value_append(a, b0);
        let va = be_bytes_value(a);
        let v0 = be_bytes_value(b0);
        let p0 = pow256k(b0.len());
        assert(be_bytes_value(b) == v0 * 256 + x);
        assert(pow256k(b.len()) == 256 * p0);
        assert(be_bytes_value(a + b) == (va * p0 + v0) * 256 + x);
        assert((va * p0 + v0) * 256 + x == va * (256 * p0) + (v0 * 256 + x)) by (nonlinear_arith);
        assert(va * (256 * p0) == va * pow256k(b.len()));
        assert(be_bytes_value(a + b) == va * pow256k(b.len()) + be_bytes_value(b));
    }
}

/// Appending eight bytes multiplies the value by 2^64 and adds their value.
pub proof fn lemma_be_value_append8(a: Seq<u8>, b: Seq<u8>)
    requires
        b.len() == 8,
    ensures
        be_bytes_value(a + b) == be_bytes_value(a) * pow64() + be_bytes_value(b),
{
    lemma_be_value_append(a, b);
    assert(pow256k(0) == 1);
    assert(pow256k(1) == 256 * pow256k(0));
    assert(pow256k(2) == 256 * pow256k(1));
    assert(pow256k(3) == 256 * pow256k(2));
    assert(pow256k(4) == 256 * pow256k(3));
    assert(pow256k(5) == 256 * pow256k(4));
    assert(pow256k(6) == 256 * pow256k(5));
    assert(pow256k(7) == 256 * pow256k(6));
    assert(pow256k(8) == 256 * pow256k(7));
}

proof fn lemma_pow256k_pos(k: nat)
    ensures
        pow256k(k) >= 1,
    decreases k,
{
    if k >= 1 {
        lemma_pow256k_pos((k - 1) as nat);
    }
}

/// The `n`-byte big-endian image of a value (modulo 256^n).
pub open spec fn be_of_nat(v: nat, n: nat) -> Seq<u8>
    decreases n,
{
    if n == 0 {
        Seq::empty()
    } else {
        be_of_nat(v / 256, (n - 1) as nat).push((v % 256) as u8)
    }
}

/// The canonical 32-byte image of a key value.
pub open spec fn key_bytes32(v: nat) -> Seq<u8> {
    be_of_nat(v, 32)
}

/// The byte image has the expected length and reads back as the value,
/// modulo the image's weight.
pub proof fn lemma_be_of_nat_value(v: nat, n: nat)
    ensures
        be_of_nat(v, n).len() == n,
        be_bytes_value(be_of_nat(v, n)) == v % pow256k(n),
    decreases n,
{
    if n == 0 {
        assert(pow256k(0) == 1);
        assert(v % 1 == 0) by (nonlinear_arith);
    } else {
        let q = v / 256;
        let r = v % 256;
        lemma_be_of_nat_value(q, (n - 1) as nat);
        lemma_be_value_push(be_of_nat(q, (n - 1) as nat), r as u8);
        let p1 = pow256k((n - 1) as nat);
        lemma_pow256k_pos((n - 1) as nat);
        assert(pow256k(n) == 256 * p1);
        vstd::arithmetic::div_mod::lemma_fundamental_div_mod(v as int, 256);
        vstd::arithmetic::div_mod::lemma_div_denominator(v as int, 256, p1 as int);
        vstd::arithmetic::div_mod::lemma_fundamental_div_mod(q as int, p1 as int);
        vstd::arithmetic::div_mod::lemma_fundamental_div_mod(v as int, (256 * p1) as int);
        assert((q % p1) * 256 + r == v % (256 * p1)) by (nonlinear_arith)
            requires
                p1 >= 1,
                v >= 0,
                q == v / 256,
                r == v % 256,
                0 <= r < 256,
                v == 256 * q + r,
                q % p1 == q - p1 * (q / p1),
                v / (256 * p1) == (v / 256) / p1,
                v % (256 * p1) == v - (256 * p1) * (v / (256 * p1)),
        ;
    }
}

/// Byte strings of one length are distinguished by their values.
pub proof fn lemma_be_value_injective(a: Seq<u8>, b: Seq<u8>)
    requires
        a.len() == b.len(),
        be_bytes_value(a) == be_bytes_value(b),
    ensures
        a =~= b,
    decreases a.len(),
{
    if a.len() > 0 {
        let va = be_bytes_value(a.drop_last());
        let vb = be_bytes_value(b.drop_last());
        vstd::arithmetic::div_mod::lemma_fundamental_div_mod_converse(
            be_bytes_value(a) as int,
            256,
            va as int,
            a.last() as int,
        );
        vstd::arithmetic::div_mod::lemma_fundamental_div_mod_converse(
            be_bytes_value(b) as int,
            256,
            vb as int,
            b.last() as int,
        );
        lemma_be_value_injective(a.drop_last(), b.drop_last());
        assert(a =~= a.drop_last().push(a.last()));
        assert(b =~= b.drop_last().push(b.last()));
    }
}

impl U256 {
    /// Canonical 32-byte big-endian serialization.
    pub fn to_be_bytes(&self) -> (r: Vec<u8>)
        ensures
            r@.len() == 32,
            be_bytes_value(r@) == self.as_nat(),
            r@ =~= key_bytes32(self.as_nat()),
    {
        let out = self.to_be_bytes_inner();
        proof {
            lemma_be_of_nat_value(self.as_nat(), 32);
            assert(pow256k(32) == pow256()) by {
                lemma_pow256k_unfold32();
            }
            vstd::arithmetic::div_mod::lemma_small_mod(self.as_nat(), pow256());
            lemma_be_value_injective(out@, key_bytes32(self.as_nat()));
        }
        out
    }

    /// Serialization body: four limbs, most significant first.
    fn to_be_bytes_inner(&self) -> (r: Vec<u8>)
        ensures
            r@.len() == 32,
            be_bytes_value(r@) == self.as_nat(),
    {
        let mut out: Vec<u8> = Vec::new();
        push_be_limb(&mut out, self.l3);
        push_be_limb(&mut out, self.l2);
        push_be_limb(&mut out, self.l1);
        push_be_limb(&mut out, self.l0);
        out
    }

    /// Reads a value back from its 32-byte big-endian serialization.
    pub fn from_be_bytes(bytes: &[u8]) -> (r: U256)
        requires
            bytes@.len() == 32,
        ensures
            r.as_nat() == be_bytes_value(bytes@),
    {
        let l3 = read_be_limb(bytes, 0);
        let l2 = read_be_limb(bytes, 8);
        let l1 = read_be_limb(bytes, 16);
        let l0 = read_be_limb(bytes, 24);
        proof {
            let s = bytes@;
            assert(s.subrange(0, 16) =~= s.subrange(0, 8) + s.subrange(8, 16));
            assert(s.subrange(0, 24) =~= s.subrange(0, 16) + s.subrange(16, 24));
            assert(s =~= s.subrange(0, 24) + s.subrange(24, 32));
            lemma_be_value_append8(s.subrange(0, 8), s.subrange(8, 16));
            lemma_be_value_append8(s.subrange(0, 16), s.subrange(16, 24));
            lemma_be_value_append8(s.subrange(0, 24), s.subrange(24, 32));
        }
        U256 { l0, l1, l2, l3 }
    }
}

/// 256^32 is 2^256.
proof fn lemma_pow256k_unfold32()
    ensures
        pow256k(32) == pow256(),
{
    assert(pow256k(0) == 1);
    assert(pow256k(1) == 256 * pow256k(0));
    assert(pow256k(2) == 256 * pow256k(1));
    assert(pow256k(3) == 256 * pow256k(2));
    assert(pow256k(4) == 256 * pow256k(3));
    assert(pow256k(5) == 256 * pow256k(4));
    assert(pow256k(6) == 256 * pow256k(5));
    assert(pow256k(7) == 256 * pow256k(6));
    assert(pow256k(8) == 256 * pow256k(7));
    assert(pow256k(9) == 256 * pow256k(8));
    assert(pow256k(10) == 256 * pow256k(9));
    assert(pow256k(11) == 256 * pow256k(10));
    assert(pow256k(12) == 256 * pow256k(11));
    assert(pow256k(13) == 256 * pow256k(12));
    assert(pow256k(14) == 256 * pow256k(13));
    assert(pow256k(15) == 256 * pow256k(14));
    assert(pow256k(16) == 256 * pow256k(15));
    assert(pow256k(17) == 256 * pow256k(16));
    assert(pow256k(18) == 256 * pow256k(17));
    assert(pow256k(19) == 256 * pow256k(18));
    assert(pow256k(20) == 256 * pow256k(19));
    assert(pow256k(21) == 256 * pow256k(20));
    assert(pow256k(22) == 256 * pow256k(21));
    assert(pow256k(23) == 256 * pow256k(22));
    assert(pow256k(24) == 256 * pow256k(23));
    assert(pow256k(25) == 256 * pow256k(24));
    assert(pow256k(26) == 256 * pow256k(25));
    assert(pow256k(27) == 256 * pow256k(26));
    assert(pow256k(28) == 256 * pow256k(27));
    assert(pow256k(29) == 256 * pow256k(28));
    assert(pow256k(30) == 256 * pow256k(29));
    assert(pow256k(31) == 256 * pow256k(30));
    assert(pow256k(32) == 256 * pow256k(31));
}

/// Appends the eight big-endian bytes of one limb.
fn push_be_limb(out: &mut Vec<u8>, limb: u64)
    ensures
        final(out)@.len() == old(out)@.len() + 8,
        be_bytes_value(final(out)@) == be_bytes_value(old(out)@) * pow64() + limb,
{
    let b0: u8 = (limb >> 56) as u8;
    let b1: u8 = (limb >> 48) as u8;
    let b2: u8 = (limb >> 40) as u8;
    let b3: u8 = (limb >> 32) as u8;
    let b4: u8 = (limb >> 24) as u8;
    let b5: u8 = (limb >> 16) as u8;
    let b6: u8 = (limb >> 8) as u8;
    let b7: u8 = limb as u8;
    proof {
        lemma_limb_bytes(limb);
    }
    let ghost s0 = out@;
    out.push(b0);
    proof {
        lemma_be_value_push(s0, b0);
    }
    let ghost s1 = out@;
    out.push(b1);
    proof {
        lemma_be_value_push(s1, b1);
    }
    let ghost s2 = out@;
    out.push(b2);
    proof {
        lemma_be_value_push(s2, b2);
    }
    let ghost s3 = out@;
    out.push(b3);
    proof {
        lemma_be_value_push(s3, b3);
    }
    let ghost s4 = out@;
    out.push(b4);
    proof {
        lemma_be_value_push(s4, b4);
    }
    let ghost s5 = out@;
    out.push(b5);
    proof {
        lemma_be_value_push(s5, b5);
    }
    let ghost s6 = out@;
    out.push(b6);
    proof {
        lemma_be_value_push(s6, b6);
    }
    let ghost s7 = out@;
    out.push(b7);
    proof {
        lemma_be_value_push(s7, b7);
    }
}

/// A limb is the weighted sum of its eight big-endian bytes.
proof fn lemma_limb_bytes(limb: u64)
    ensures
        ((limb >> 56) as u8 as nat) * 0x100_0000_0000_0000 + ((limb >> 48) as u8 as nat)
            * 0x1_0000_0000_0000 + ((limb >> 40) as u8 as nat) * 0x100_0000_0000 + ((limb
            >> 32) as u8 as nat) * 0x1_0000_0000 + ((limb >> 24) as u8 as nat) * 0x100_0000 + ((
        limb >> 16) as u8 as nat) * 0x1_0000 + ((limb >> 8) as u8 as nat) * 0x100 + (
        limb as u8 as nat) == limb,
{
    assert(((limb >> 56) as u8 as u64) * 0x100_0000_0000_0000 + ((limb >> 48) as u8 as u64)
        * 0x1_0000_0000_0000 + ((limb >> 40) as u8 as u64) * 0x100_0000_0000 + ((limb
        >> 32) as u8 as u64) * 0x1_0000_0000 + ((limb >> 24) as u8 as u64) * 0x100_0000 + ((limb
        >> 16) as u8 as u64) * 0x1_0000 + ((limb >> 8) as u8 as u64) * 0x100 + (limb as u8 as u64)
        == limb) by (bit_vector);
}

/// Reads one limb from eight big-endian bytes at `at`.
fn read_be_limb(bytes: &[u8], at: usize) -> (r: u64)
    requires
        at + 8 <= bytes@.len(),
    ensures
        r == be_bytes_value(bytes@.subrange(at as int, at + 8)),
{
    let r: u64 = (bytes[at] as u64) * 0x100_0000_0000_0000 + (bytes[at + 1] as u64)
        * 0x1_0000_0000_0000 + (bytes[at + 2] as u64) * 0x100_0000_0000 + (bytes[at + 3] as u64)
        * 0x1_0000_0000 + (bytes[at + 4] as u64) * 0x100_0000 + (bytes[at + 5] as u64) * 0x1_0000
        + (bytes[at + 6] as u64) * 0x100 + (bytes[at + 7] as u64);
    proof {
        lemma_be_value8(bytes@.subrange(at as int, at + 8));
    }
    r
}

/// Closed form of the value of an eight-byte string.
proof fn lemma_be_value8(s: Seq<u8>)
    requires
        s.len() == 8,
    ensures
        be_bytes_value(s) == (s[0] as nat) * 0x100_0000_0000_0000 + (s[1] as nat)
            * 0x1_0000_0000_0000 + (s[2] as nat) * 0x100_0000_0000 + (s[3] as nat) * 0x1_0000_0000
            + (s[4] as nat) * 0x100_0000 + (s[5] as nat) * 0x1_0000 + (s[6] as nat) * 0x100 + (
        s[7] as nat),
{
    let s7 = s.drop_last();
    let s6 = s7.drop_last();
    let s5 = s6.drop_last();
    let s4 = s5.drop_last();
    let s3 = s4.drop_last();
    let s2 = s3.drop_last();
    let s1 = s2.drop_last();
    let s0 = s1.drop_last();
    assert(s0 =~= Seq::<u8>::empty());
    assert(be_bytes_value(s0) == 0);
    assert(be_bytes_value(s1) == be_bytes_value(s0) * 256 + s[0]);
    assert(be_bytes_value(s2) == be_bytes_value(s1) * 256 + s[1]);
    assert(be_bytes_value(s3) == be_bytes_value(s2) * 256 + s[2]);
    assert(be_bytes_value(s4) == be_bytes_value(s3) * 256 + s[3]);
    assert(be_bytes_value(s5) == be_bytes_value(s4) * 256 + s[4]);
    assert(be_bytes_value(s6) == be_bytes_value(s5) * 256 + s[5]);
    assert(be_bytes_value(s7) == be_bytes_value(s6) * 256 + s[6]);
    assert(be_bytes_value(s) == be_bytes_value(s7) * 256 + s[7]);
}

/// One step of longhand division: divides `rem:limb` (a two-limb value whose
/// high part is a remainder below `d`) by `d`.
fn div_step(rem: u64, limb: u64, d: u64) -> (qr: (u64, u64))
    requires
        d >= 1,
        rem < d,
    ensures
        (qr.0 as nat) * d + qr.1 == rem * pow64() + limb,
        qr.1 < d,
{
    let cur: u128 = (rem as u128) * LIMB_BASE + limb as u128;
    let q: u128 = cur / (d as u128);
    let r: u128 = cur % (d as u128);
    proof {
        vstd::arithmetic::div_mod::lemma_fundamental_div_mod(cur as int, d as int);
        vstd::arithmetic::div_mod::lemma_mod_division_less_than_divisor(cur as int, d as int);
        assert(cur < (d as int) * 0x1_0000_0000_0000_0000) by (nonlinear_arith)
            requires
                rem < d,
                cur == (rem as int) * 0x1_0000_0000_0000_0000 + limb,
                limb < 0x1_0000_0000_0000_0000,
        ;
        vstd::arithmetic::div_mod::lemma_multiply_divide_lt(
            cur as int,
            d as int,
            0x1_0000_0000_0000_0000,
        );
        assert((q as int) * (d as int) == (d as int) * (q as int)) by (nonlinear_arith);
    }
    ((q as u64), (r as u64))
}

/// Splits a 128-bit value into its low and high 64-bit halves.
proof fn lemma_split_u128(s: u128)
    ensures
        s == (s as u64) + ((s >> 64) as u64 as nat) * pow64(),
        (s >> 64) as u64 <= 0xffff_ffff_ffff_ffff,
{
    assert(s == (s as u64) as u128 + ((s >> 64) as u64 as u128) * 0x1_0000_0000_0000_0000u128)
        by (bit_vector);
}

/// If `a`'s limbs are below `b`'s at the most significant point of
/// difference, then `a`'s value is below `b`'s.
proof fn lemma_limb_order(a: U256, b: U256)
    ensures
        a.l3 < b.l3 ==> a.as_nat() < b.as_nat(),
        a.l3 == b.l3 && a.l2 < b.l2 ==> a.as_nat() < b.as_nat(),
        a.l3 == b.l3 && a.l2 == b.l2 && a.l1 < b.l1 ==> a.as_nat() < b.as_nat(),
        a.l3 == b.l3 && a.l2 == b.l2 && a.l1 == b.l1 && a.l0 < b.l0 ==> a.as_nat() < b.as_nat(),
{
}

} // verus!
