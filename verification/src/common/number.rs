//! Numbers of the language: IEEE 754 double-precision values, held by their
//! bit pattern.
//!
//! What can be decided on the bit pattern with integers alone is decided
//! here: equality, ordering, truncation to an index and the conversion of a
//! length. Rounded arithmetic and decimal conversion belong to the host
//! platform.

use vstd::prelude::*;
use vstd::arithmetic::power2::*;
use vstd::std_specs::cmp::PartialEqSpecImpl;

verus! {

/// The sign bit of a double.
pub const SIGN_BIT: u64 = 0x8000_0000_0000_0000;

/// The bit pattern of positive infinity: every magnitude above it is a NaN.
pub const INFINITY_BITS: u64 = 0x7ff0_0000_0000_0000;

/// Two to the power 52: the implicit leading bit of a normal significand.
pub const HIDDEN_BIT: u64 = 0x10_0000_0000_0000;

/// The exponent bias of a double.
pub const EXPONENT_BIAS: u64 = 1023;

/// A double-precision number, by its bit pattern.
#[derive(Debug, Clone, Copy)]
pub struct Num {
    pub bits: u64,
}

/// The largest `e` with `2^e <= n`, and 0 for `n == 0`.
pub open spec fn floor_log2(n: nat) -> nat
    decreases n,
{
    if n <= 1 {
        0
    } else {
        1 + floor_log2(n / 2)
    }
}

/// The bit pattern of the double nearest to `n`, ties going to the even
/// significand.
pub open spec fn bits_of_nat(n: nat) -> int {
    if n == 0 {
        0
    } else {
        let e = floor_log2(n);
        if e <= 52 {
            (1023 + e) * pow2(52) + n * pow2((52 - e) as nat) - pow2(52)
        } else {
            let unit = pow2((e - 52) as nat);
            let q = n / unit;
            let r = n % unit;
            let up: int = if 2 * r > unit || (2 * r == unit && q % 2 == 1) {
                1
            } else {
                0
            };
            (1023 + e) * pow2(52) + q + up - pow2(52)
        }
    }
}

impl Num {
    /// The bit pattern without its sign.
    pub open spec fn magnitude(self) -> int {
        self.bits as int % 0x8000_0000_0000_0000
    }

    /// Whether the sign bit is set.
    pub open spec fn is_negative(self) -> bool {
        self.bits >= 0x8000_0000_0000_0000
    }

    /// Whether the value is not a number.
    pub open spec fn is_nan(self) -> bool {
        self.magnitude() > 0x7ff0_0000_0000_0000
    }

    /// The biased exponent field.
    pub open spec fn exponent(self) -> int {
        self.magnitude() / 0x10_0000_0000_0000
    }

    /// The significand of a normal value, with its leading bit.
    pub open spec fn significand(self) -> int {
        0x10_0000_0000_0000 + self.magnitude() % 0x10_0000_0000_0000
    }

    /// An integer that orders the values that are numbers as the values
    /// themselves are ordered; the two zeros share the key 0.
    pub open spec fn order_key(self) -> int {
        if self.is_negative() {
            -self.magnitude()
        } else {
            self.magnitude()
        }
    }

    /// Numeric equality: a NaN equals nothing, the two zeros are equal.
    pub open spec fn num_eq(self, other: Num) -> bool {
        !self.is_nan() && !other.is_nan() && self.order_key() == other.order_key()
    }

    /// Numeric `<`: false whenever either side is a NaN.
    pub open spec fn num_lt(self, other: Num) -> bool {
        !self.is_nan() && !other.is_nan() && self.order_key() < other.order_key()
    }

    /// Numeric `<=`: false whenever either side is a NaN.
    pub open spec fn num_le(self, other: Num) -> bool {
        !self.is_nan() && !other.is_nan() && self.order_key() <= other.order_key()
    }

    /// The value rounded toward zero, for a value that is a number and is
    /// not negative; 0 for the others.
    pub open spec fn truncated(self) -> nat {
        if self.is_nan() || self.is_negative() || self.exponent() < 1023 {
            0
        } else if self.exponent() <= 1075 {
            (self.significand() / (pow2((1075 - self.exponent()) as nat) as int)) as nat
        } else {
            (self.significand() * pow2((self.exponent() - 1075) as nat)) as nat
        }
    }

    /// The value as an index: [`Num::truncated`], capped at the largest
    /// `usize`.
    pub open spec fn index(self) -> usize {
        if self.truncated() > usize::MAX {
            usize::MAX
        } else {
            self.truncated() as usize
        }
    }

    /// The number with the given bit pattern.
    pub fn from_bits(bits: u64) -> (r: Num)
        ensures
            r.bits == bits,
    {
        Num { bits }
    }

    /// The bit pattern.
    pub fn to_bits(&self) -> (r: u64)
        ensures
            r == self.bits,
    {
        self.bits
    }

    /// Minus one.
    pub fn minus_one() -> (r: Num)
        ensures
            r.bits == 0xbff0_0000_0000_0000,
    {
        Num { bits: 0xbff0_0000_0000_0000 }
    }

    fn key_parts(&self) -> (r: (bool, bool, u64))
        ensures
            r.0 == self.is_nan(),
            r.1 == self.is_negative(),
            r.2 == self.magnitude(),
    {
        let mag = self.bits % SIGN_BIT;
        (mag > INFINITY_BITS, self.bits >= SIGN_BIT, mag)
    }

    /// Numeric equality.
    pub fn is_eq(&self, other: &Num) -> (r: bool)
        ensures
            r == self.num_eq(*other),
    {
        let (nan_a, neg_a, mag_a) = self.key_parts();
        let (nan_b, neg_b, mag_b) = other.key_parts();
        if nan_a || nan_b {
            false
        } else if mag_a == 0 && mag_b == 0 {
            true
        } else {
            neg_a == neg_b && mag_a == mag_b
        }
    }

    /// Numeric `<`.
    pub fn is_lt(&self, other: &Num) -> (r: bool)
        ensures
            r == self.num_lt(*other),
    {
        let (nan_a, neg_a, mag_a) = self.key_parts();
        let (nan_b, neg_b, mag_b) = other.key_parts();
        if nan_a || nan_b {
            false
        } else if neg_a && neg_b {
            mag_a > mag_b
        } else if neg_a {
            mag_a > 0 || mag_b > 0
        } else if neg_b {
            false
        } else {
            mag_a < mag_b
        }
    }

    /// Numeric `<=`.
    pub fn is_le(&self, other: &Num) -> (r: bool)
        ensures
            r == self.num_le(*other),
    {
        let (nan_a, neg_a, mag_a) = self.key_parts();
        let (nan_b, neg_b, mag_b) = other.key_parts();
        if nan_a || nan_b {
            false
        } else if neg_a && neg_b {
            mag_a >= mag_b
        } else if neg_a {
            true
        } else if neg_b {
            mag_a == 0 && mag_b == 0
        } else {
            mag_a <= mag_b
        }
    }

    /// The value as a list index: rounded toward zero, with 0 for a NaN and
    /// for a negative value, and the largest index for a value beyond it.
    pub fn to_index(&self) -> (r: usize)
        ensures
            r == self.index(),
    {
        let (nan, neg, mag) = self.key_parts();
        let exp = mag / HIDDEN_BIT;
        if nan || neg || exp < EXPONENT_BIAS {
            return 0;
        }
        let sig = HIDDEN_BIT + mag % HIDDEN_BIT;
        proof {
            lemma2_to64();
            lemma2_to64_rest();
        }
        if exp <= 1075 {
            let unit = pow2_u64(1075 - exp);
            let v = sig / unit;
            saturate(v)
        } else if exp >= 1087 {
            proof {
                if exp > 1087 {
                    lemma_pow2_strictly_increases(12, (exp - 1075) as nat);
                }
                assert(sig * pow2((exp - 1075) as nat) > u64::MAX) by (nonlinear_arith)
                    requires
                        sig >= 0x10_0000_0000_0000,
                        pow2((exp - 1075) as nat) >= 0x1000,
                ;
            }
            usize::MAX
        } else {
            let unit = pow2_u64(exp - 1075);
            proof {
                if exp - 1075 < 11 {
                    lemma_pow2_strictly_increases((exp - 1075) as nat, 11);
                }
                assert(sig * unit <= u64::MAX) by (nonlinear_arith)
                    requires
                        sig < 0x20_0000_0000_0000,
                        unit <= 0x800,
                ;
            }
            let v = sig * unit;
            saturate(v)
        }
    }

    /// The double nearest to `n`.
    pub fn from_usize(n: usize) -> (r: Num)
        ensures
            r.bits == bits_of_nat(n as nat),
    {
        if n == 0 {
            return Num { bits: 0 };
        }
        let n64 = n as u64;
        let mut e: u64 = 0;
        let mut p: u64 = 1;
        proof {
            lemma2_to64();
        }
        while n64 / 2 >= p
            invariant
                p == pow2(e as nat),
                1 <= p <= n64,
                e <= 63,
            decreases n64 - p,
        {
            proof {
                lemma_pow2_unfold((e + 1) as nat);
                if e >= 63 {
                    lemma2_to64_rest();
                }
            }
            p = p * 2;
            e = e + 1;
        }
        proof {
            lemma_pow2_unfold((e + 1) as nat);
            lemma_floor_log2_between(n as nat, e as nat);
            lemma2_to64();
            lemma2_to64_rest();
        }
        if e <= 52 {
            let scale = pow2_u64(52 - e);
            proof {
                lemma_pow2_adds(e as nat, (52 - e) as nat);
                assert(n64 * scale < 2 * (p * scale) && n64 * scale >= p * scale)
                    by (nonlinear_arith)
                    requires
                        p <= n64 < 2 * p,
                        scale > 0,
                ;
            }
            let m = n64 * scale;
            Num { bits: (EXPONENT_BIAS + e) * HIDDEN_BIT + (m - HIDDEN_BIT) }
        } else {
            let unit = pow2_u64(e - 52);
            let q = n64 / unit;
            let r = n64 % unit;
            proof {
                lemma_pow2_adds(52, (e - 52) as nat);
                assert(0x10_0000_0000_0000 <= (n64 as int) / (unit as int)
                    && (n64 as int) / (unit as int) < 0x20_0000_0000_0000)
                    by (nonlinear_arith)
                    requires
                        0x10_0000_0000_0000 * unit <= n64 < 2 * (0x10_0000_0000_0000 * unit),
                        unit > 0,
                ;
                lemma_pow2_unfold((e - 52) as nat);
            }
            let half = unit / 2;
            let up: u64 = if r > half || (r == half && q % 2 == 1) {
                1
            } else {
                0
            };
            Num { bits: (EXPONENT_BIAS + e) * HIDDEN_BIT + (q + up - HIDDEN_BIT) }
        }
    }
}

/// `2^k` for `k < 64`.
fn pow2_u64(k: u64) -> (r: u64)
    requires
        k < 64,
    ensures
        r == pow2(k as nat),
        r > 0,
{
    let mut r: u64 = 1;
    let mut i: u64 = 0;
    proof {
        lemma2_to64();
    }
    while i < k
        invariant
            i <= k < 64,
            r == pow2(i as nat),
            r > 0,
        decreases k - i,
    {
        proof {
            lemma_pow2_unfold((i + 1) as nat);
            lemma_pow2_strictly_increases((i + 1) as nat, 64);
            lemma2_to64_rest();
        }
        r = r * 2;
        i = i + 1;
    }
    r
}

fn saturate(v: u64) -> (r: usize)
    ensures
        v <= usize::MAX ==> r == v,
        v > usize::MAX ==> r == usize::MAX,
{
    if v > usize::MAX as u64 {
        usize::MAX
    } else {
        v as usize
    }
}

/// A number between two consecutive powers of two has the lower exponent as
/// its logarithm.
pub proof fn lemma_floor_log2_between(n: nat, e: nat)
    requires
        pow2(e) <= n < pow2(e + 1),
    ensures
        floor_log2(n) == e,
    decreases e,
{
    lemma2_to64();
    if e == 0 {
        assert(pow2(1) == 2);
        assert(n == 1);
    } else {
        lemma_pow2_unfold(e);
        lemma_pow2_unfold(e + 1);
        lemma_pow2_pos((e - 1) as nat);
        assert(n >= 2);
        lemma_floor_log2_between(n / 2, (e - 1) as nat);
    }
}

impl PartialEq for Num {
    fn eq(&self, other: &Num) -> (r: bool)
    {
        self.is_eq(other)
    }
}

impl PartialEqSpecImpl for Num {
    open spec fn obeys_eq_spec() -> bool {
        true
    }

    open spec fn eq_spec(&self, other: &Num) -> bool {
        self.num_eq(*other)
    }
}

} // verus!
