//! A 256-bit unsigned integer, the quantity type of the flashloan: the amount
//! to borrow and the native-currency value attached to a sub-call.
//!
//! The value is held as four 64-bit limbs, least significant first; its
//! mathematical model is [`U256::as_nat`].

use vstd::prelude::*;
use vstd::arithmetic::mul::lemma_mul_upper_bound;
use vstd::arithmetic::div_mod::lemma_fundamental_div_mod;
use vstd::arithmetic::div_mod::lemma_fundamental_div_mod_converse;

verus! {

/// 2^64.
pub open spec fn pow2_64() -> nat {
    0x1_0000_0000_0000_0000nat
}

/// 2^128.
pub open spec fn pow2_128() -> nat {
    0x1_0000_0000_0000_0000_0000_0000_0000_0000nat
}

/// 2^192.
pub open spec fn pow2_192() -> nat {
    0x1_0000_0000_0000_0000_0000_0000_0000_0000_0000_0000_0000_0000nat
}

/// 2^256, one past the largest representable quantity.
pub open spec fn pow2_256() -> nat {
    0x1_0000_0000_0000_0000_0000_0000_0000_0000_0000_0000_0000_0000_0000_0000_0000_0000nat
}

/// A 256-bit unsigned integer: four 64-bit limbs, least significant first.
#[derive(Debug, Clone, Copy, PartialEq, Eq, Structural)]
pub struct U256 {
    /// Bits 0..64.
    pub w0: u64,
    /// Bits 64..128.
    pub w1: u64,
    /// Bits 128..192.
    pub w2: u64,
    /// Bits 192..256.
    pub w3: u64,
}

impl U256 {
    /// The numeric value of the limbs.
    pub open spec fn as_nat(self) -> nat {
        (self.w0 + self.w1 * pow2_64() + self.w2 * pow2_128() + self.w3 * pow2_192()) as nat
    }

    /// The zero quantity.
    pub fn zero() -> (r: U256)
        ensures
            r.as_nat() == 0,
    {
        U256 { w0: 0, w1: 0, w2: 0, w3: 0 }
    }

    /// A quantity small enough for one limb.
    pub fn from_u64(x: u64) -> (r: U256)
        ensures
            r.as_nat() == x,
    {
        U256 { w0: x, w1: 0, w2: 0, w3: 0 }
    }

    /// Whether the quantity is zero.
    pub fn is_zero(&self) -> (r: bool)
        ensures
            r == (self.as_nat() == 0),
    {
        self.w0 == 0 && self.w1 == 0 && self.w2 == 0 && self.w3 == 0
    }

    /// `self * m + a`, or `None` when the result does not fit in 256 bits.
    ///
    /// This is the single step of reading a number digit by digit in radix
    /// `m`, with `a` the incoming digit.
    pub fn checked_mul_small_add(&self, m: u64, a: u64) -> (r: Option<U256>)
        ensures
            match r {
                Some(v) => v.as_nat() == self.as_nat() * m + a && self.as_nat() * m + a
                    < pow2_256(),
                None => self.as_nat() * m + a >= pow2_256(),
            },
    {
        proof {
            lemma_mul_upper_bound(self.w0 as int, u64::MAX as int, m as int, u64::MAX as int);
            lemma_mul_upper_bound(self.w1 as int, u64::MAX as int, m as int, u64::MAX as int);
            lemma_mul_upper_bound(self.w2 as int, u64::MAX as int, m as int, u64::MAX as int);
            lemma_mul_upper_bound(self.w3 as int, u64::MAX as int, m as int, u64::MAX as int);
        }
        let c0: u128 = (self.w0 as u128) * (m as u128) + (a as u128);
        let r0: u64 = (c0 % 0x1_0000_0000_0000_0000u128) as u64;
        let k0: u64 = (c0 / 0x1_0000_0000_0000_0000u128) as u64;
        let c1: u128 = (self.w1 as u128) * (m as u128) + (k0 as u128);
        let r1: u64 = (c1 % 0x1_0000_0000_0000_0000u128) as u64;
        let k1: u64 = (c1 / 0x1_0000_0000_0000_0000u128) as u64;
        let c2: u128 = (self.w2 as u128) * (m as u128) + (k1 as u128);
        let r2: u64 = (c2 % 0x1_0000_0000_0000_0000u128) as u64;
        let k2: u64 = (c2 / 0x1_0000_0000_0000_0000u128) as u64;
        let c3: u128 = (self.w3 as u128) * (m as u128) + (k2 as u128);
        let r3: u64 = (c3 % 0x1_0000_0000_0000_0000u128) as u64;
        let k3: u64 = (c3 / 0x1_0000_0000_0000_0000u128) as u64;
        proof {
            lemma_fundamental_div_mod(c0 as int, pow2_64() as int);
            lemma_fundamental_div_mod(c1 as int, pow2_64() as int);
            lemma_fundamental_div_mod(c2 as int, pow2_64() as int);
            lemma_fundamental_div_mod(c3 as int, pow2_64() as int);
            assert(self.as_nat() * m == self.w0 * m + (self.w1 * m) * pow2_64() + (self.w2
                * m) * pow2_128() + (self.w3 * m) * pow2_192()) by (nonlinear_arith)
                requires
                    self.as_nat() == self.w0 + self.w1 * pow2_64() + self.w2 * pow2_128()
                        + self.w3 * pow2_192(),
            ;
            assert(self.as_nat() * m + a == r0 + r1 * pow2_64() + r2 * pow2_128() + r3
                * pow2_192() + k3 * pow2_256());
        }
        if k3 != 0 {
            None
        } else {
            Some(U256 { w0: r0, w1: r1, w2: r2, w3: r3 })
        }
    }

    /// The quotient and remainder of division by 16: one step of reading the
    /// hexadecimal digits off the low end.
    pub fn div_rem_16(&self) -> (r: (U256, u64))
        ensures
            r.0.as_nat() == self.as_nat() / 16,
            r.1 == self.as_nat() % 16,
            r.1 < 16,
    {
        let q0: u64 = self.w0 / 16 + (self.w1 % 16) * 0x1000_0000_0000_0000;
        let q1: u64 = self.w1 / 16 + (self.w2 % 16) * 0x1000_0000_0000_0000;
        let q2: u64 = self.w2 / 16 + (self.w3 % 16) * 0x1000_0000_0000_0000;
        let q3: u64 = self.w3 / 16;
        let rem: u64 = self.w0 % 16;
        let q = U256 { w0: q0, w1: q1, w2: q2, w3: q3 };
        proof {
            lemma_fundamental_div_mod(self.w0 as int, 16);
            lemma_fundamental_div_mod(self.w1 as int, 16);
            lemma_fundamental_div_mod(self.w2 as int, 16);
            lemma_fundamental_div_mod(self.w3 as int, 16);
            assert(self.as_nat() == 16 * q.as_nat() + rem);
            lemma_fundamental_div_mod_converse(
                self.as_nat() as int,
                16,
                q.as_nat() as int,
                rem as int,
            );
        }
        (q, rem)
    }
}

} // verus!
