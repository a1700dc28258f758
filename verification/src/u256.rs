//! An unsigned 256-bit integer built from four 64-bit limbs, with
//! checked addition and subtraction proved against the mathematical
//! value of the limbs.

use vstd::prelude::*;

verus! {

/// 2^64, the weight of one limb.
pub open spec fn limb_base() -> nat {
    0x1_0000_0000_0000_0000
}

/// 2^256, the first value that does not fit in four limbs.
pub open spec fn u256_bound() -> nat {
    0x1_0000_0000_0000_0000 * 0x1_0000_0000_0000_0000 * 0x1_0000_0000_0000_0000
        * 0x1_0000_0000_0000_0000
}

/// An unsigned 256-bit integer. `limb0` is the least significant limb.
#[derive(Clone, Copy, Debug, PartialEq, Eq, Structural)]
pub struct U256 {
    pub limb0: u64,
    pub limb1: u64,
    pub limb2: u64,
    pub limb3: u64,
}

impl U256 {
    /// The mathematical value represented by the four limbs.
    pub open spec fn as_nat(self) -> nat {
        (self.limb0 as nat) + (self.limb1 as nat) * 0x1_0000_0000_0000_0000 + (self.limb2 as nat)
            * 0x1_0000_0000_0000_0000 * 0x1_0000_0000_0000_0000 + (self.limb3 as nat)
            * 0x1_0000_0000_0000_0000 * 0x1_0000_0000_0000_0000 * 0x1_0000_0000_0000_0000
    }

    pub fn zero() -> (r: U256)
        ensures
            r.as_nat() == 0,
    {
        U256 { limb0: 0, limb1: 0, limb2: 0, limb3: 0 }
    }

    pub fn from_u64(value: u64) -> (r: U256)
        ensures
            r.as_nat() == value,
    {
        U256 { limb0: value, limb1: 0, limb2: 0, limb3: 0 }
    }

    /// The largest representable value, 2^256 - 1.
    pub fn max_value() -> (r: U256)
        ensures
            r.as_nat() == u256_bound() - 1,
    {
        U256 { limb0: u64::MAX, limb1: u64::MAX, limb2: u64::MAX, limb3: u64::MAX }
    }

    /// Checked addition: `Some` exactly when the mathematical sum fits in
    /// 256 bits, in which case the result represents that sum.
    pub fn checked_add(&self, other: &U256) -> (r: Option<U256>)
        ensures
            r is Some <==> self.as_nat() + other.as_nat() < u256_bound(),
            r matches Some(v) ==> v.as_nat() == self.as_nat() + other.as_nat(),
    {
        let (r0, c1) = add_limb(self.limb0, other.limb0, 0);
        let (r1, c2) = add_limb(self.limb1, other.limb1, c1);
        let (r2, c3) = add_limb(self.limb2, other.limb2, c2);
        let (r3, c4) = add_limb(self.limb3, other.limb3, c3);
        let v = U256 { limb0: r0, limb1: r1, limb2: r2, limb3: r3 };
        proof {
            lemma_as_nat_bound(v);
            assert(self.as_nat() + other.as_nat() == v.as_nat() + (c4 as nat)
                * 0x1_0000_0000_0000_0000 * 0x1_0000_0000_0000_0000 * 0x1_0000_0000_0000_0000
                * 0x1_0000_0000_0000_0000);
        }
        if c4 == 0 {
            Some(v)
        } else {
            None
        }
    }

    /// Checked subtraction: `Some` exactly when no underflow occurs, in
    /// which case the result represents the mathematical difference.
    pub fn checked_sub(&self, other: &U256) -> (r: Option<U256>)
        ensures
            r is Some <==> other.as_nat() <= self.as_nat(),
            r matches Some(v) ==> v.as_nat() + other.as_nat() == self.as_nat(),
    {
        let (r0, b1) = sub_limb(self.limb0, other.limb0, 0);
        let (r1, b2) = sub_limb(self.limb1, other.limb1, b1);
        let (r2, b3) = sub_limb(self.limb2, other.limb2, b2);
        let (r3, b4) = sub_limb(self.limb3, other.limb3, b3);
        let v = U256 { limb0: r0, limb1: r1, limb2: r2, limb3: r3 };
        proof {
            lemma_as_nat_bound(v);
            assert(self.as_nat() - other.as_nat() == v.as_nat() - (b4 as nat)
                * 0x1_0000_0000_0000_0000 * 0x1_0000_0000_0000_0000 * 0x1_0000_0000_0000_0000
                * 0x1_0000_0000_0000_0000);
        }
        if b4 == 0 {
            Some(v)
        } else {
            None
        }
    }

    /// Strict comparison of the represented values.
    pub fn lt(&self, other: &U256) -> (r: bool)
        ensures
            r <==> self.as_nat() < other.as_nat(),
    {
        proof {
            lemma_limb_order(*self, *other);
        }
        if self.limb3 != other.limb3 {
            self.limb3 < other.limb3
        } else if self.limb2 != other.limb2 {
            self.limb2 < other.limb2
        } else if self.limb1 != other.limb1 {
            self.limb1 < other.limb1
        } else {
            self.limb0 < other.limb0
        }
    }
}

/// Adds two limbs and an incoming carry; returns the low limb of the sum
/// and the outgoing carry.
fn add_limb(a: u64, b: u64, carry: u64) -> (r: (u64, u64))
    requires
        carry <= 1,
    ensures
        r.1 <= 1,
        a + b + carry == r.0 + (r.1 as nat) * 0x1_0000_0000_0000_0000,
{
    let s: u128 = a as u128 + b as u128 + carry as u128;
    let lo: u64 = (s % 0x1_0000_0000_0000_0000u128) as u64;
    let hi: u64 = (s / 0x1_0000_0000_0000_0000u128) as u64;
    proof {
        vstd::arithmetic::div_mod::lemma_fundamental_div_mod(s as int, 0x1_0000_0000_0000_0000);
    }
    (lo, hi)
}

/// Subtracts a limb and an incoming borrow from a limb; returns the low
/// limb of the difference and the outgoing borrow.
fn sub_limb(a: u64, b: u64, borrow: u64) -> (r: (u64, u64))
    requires
        borrow <= 1,
    ensures
        r.1 <= 1,
        a - b - borrow == r.0 - (r.1 as nat) * 0x1_0000_0000_0000_0000,
{
    let s: u128 = 0x1_0000_0000_0000_0000u128 + a as u128 - b as u128 - borrow as u128;
    let lo: u64 = (s % 0x1_0000_0000_0000_0000u128) as u64;
    let hi: u64 = (s / 0x1_0000_0000_0000_0000u128) as u64;
    proof {
        vstd::arithmetic::div_mod::lemma_fundamental_div_mod(s as int, 0x1_0000_0000_0000_0000);
    }
    (lo, 1 - hi)
}

/// The represented values are ordered exactly as the limbs are ordered
/// lexicographically, most significant limb first.
pub proof fn lemma_limb_order(a: U256, b: U256)
    ensures
        a.as_nat() < b.as_nat() <==> (a.limb3 < b.limb3 || (a.limb3 == b.limb3 && (a.limb2
            < b.limb2 || (a.limb2 == b.limb2 && (a.limb1 < b.limb1 || (a.limb1 == b.limb1
            && a.limb0 < b.limb0)))))),
{
}

/// Every four-limb value lies below 2^256.
pub proof fn lemma_as_nat_bound(v: U256)
    ensures
        v.as_nat() < u256_bound(),
{
}

/// The limb representation is canonical: equal values have equal limbs,
/// so a value read twice from the same state is bit-for-bit identical.
pub proof fn lemma_as_nat_injective(a: U256, b: U256)
    requires
        a.as_nat() == b.as_nat(),
    ensures
        a == b,
{
    lemma_limb_order(a, b);
    lemma_limb_order(b, a);
}

} // verus!
