//! Measured quantities (tokens per second, scores): IEEE 754 doubles carried
//! by their bit pattern. The deck stores, compares and ranks them here; the
//! arithmetic that makes them is done where they are measured.
use vstd::arithmetic::power2::pow2;
use vstd::prelude::*;

verus! {

/// A double by its bit pattern.
#[derive(Debug, Clone, Copy, PartialEq, Eq, Structural)]
pub struct Measure {
    pub bits: u64,
}

/// The sign bit.
pub const SIGN: u64 = 0x8000_0000_0000_0000;

/// The magnitude of the infinities; what lies above is no number.
pub const INFINITE: u64 = 0x7ff0_0000_0000_0000;

impl Measure {
    /// The pattern without its sign bit.
    pub open spec fn magnitude(self) -> int {
        if self.bits >= SIGN {
            self.bits - SIGN
        } else {
            self.bits as int
        }
    }

    pub open spec fn nan(self) -> bool {
        self.magnitude() > INFINITE
    }

    /// Orders the numbers as their values are ordered; both zeros are zero.
    pub open spec fn rank(self) -> int {
        if self.bits >= SIGN {
            -self.magnitude()
        } else {
            self.magnitude()
        }
    }

    /// Orders all patterns: as `rank`, negative zero below zero, and what is no
    /// number outside the infinities on the side of its sign.
    pub open spec fn total_rank(self) -> int {
        if self.bits >= SIGN {
            -self.magnitude() - 1
        } else {
            self.magnitude()
        }
    }

    /// `self < other` of doubles: false where one is no number.
    pub open spec fn below(self, other: Measure) -> bool {
        !self.nan() && !other.nan() && self.rank() < other.rank()
    }

    /// `self > 0` of doubles.
    pub open spec fn positive(self) -> bool {
        !self.nan() && self.rank() > 0
    }

    /// The exponent field.
    pub open spec fn exponent(self) -> int {
        self.magnitude() / 0x10_0000_0000_0000
    }

    /// The digits of a number of one or more, as an integer.
    pub open spec fn significand(self) -> int {
        0x10_0000_0000_0000 + self.magnitude() % 0x10_0000_0000_0000
    }

    /// The integer part as an unsigned integer: what is negative or no number
    /// becomes zero, what is too large the largest.
    pub open spec fn truncated(self) -> u64 {
        if self.nan() || self.bits >= SIGN || self.exponent() < 1023 {
            0
        } else if self.exponent() >= 1023 + 64 {
            u64::MAX
        } else if self.exponent() >= 1023 + 52 {
            (self.significand() * pow2((self.exponent() - 1023 - 52) as nat)) as u64
        } else {
            (self.significand() / (pow2((1023 + 52 - self.exponent()) as nat) as int)) as u64
        }
    }

    /// The integer part as an unsigned integer.
    pub fn truncate(self) -> (r: u64)
        ensures
            r == self.truncated(),
    {
        if self.is_nan() || self.bits >= SIGN {
            return 0;
        }
        let exponent: u64 = self.bits / 0x10_0000_0000_0000;
        if exponent < 1023 {
            return 0;
        }
        if exponent >= 1023 + 64 {
            return u64::MAX;
        }
        let significand: u64 = 0x10_0000_0000_0000 + self.bits % 0x10_0000_0000_0000;
        let mut v: u64 = significand;
        let mut k: u64 = 0;
        if exponent >= 1023 + 52 {
            let up: u64 = exponent - 1023 - 52;
            proof {
                vstd::arithmetic::power2::lemma2_to64();
            }
            while k < up
                invariant
                    k <= up <= 11,
                    significand < 0x20_0000_0000_0000,
                    v == significand * pow2(k as nat),
                    v < 0x20_0000_0000_0000 * pow2(k as nat),
                decreases up - k,
            {
                proof {
                    vstd::arithmetic::power2::lemma2_to64();
                    vstd::arithmetic::power2::lemma_pow2_unfold((k + 1) as nat);
                    let a = pow2(k as nat);
                    let b = pow2((k + 1) as nat);
                    assert(v * 2 == significand * b) by (nonlinear_arith)
                        requires
                            v == significand * a,
                            b == 2 * a,
                    ;
                    assert(a <= 1024) by {
                        if k < 10 {
                            vstd::arithmetic::power2::lemma_pow2_strictly_increases(k as nat, 10);
                        }
                    }
                }
                v = v * 2;
                k = k + 1;
            }
        } else {
            let down: u64 = 1023 + 52 - exponent;
            proof {
                vstd::arithmetic::power2::lemma2_to64();
            }
            while k < down
                invariant
                    k <= down <= 52,
                    v == significand as int / (pow2(k as nat) as int),
                decreases down - k,
            {
                proof {
                    vstd::arithmetic::power2::lemma_pow2_unfold((k + 1) as nat);
                    vstd::arithmetic::power2::lemma_pow2_pos(k as nat);
                    vstd::arithmetic::div_mod::lemma_div_denominator(
                        significand as int,
                        pow2(k as nat) as int,
                        2,
                    );
                }
                v = v / 2;
                k = k + 1;
            }
        }
        v
    }

    pub fn is_nan(self) -> (r: bool)
        ensures
            r == self.nan(),
    {
        let m: u64 = if self.bits >= SIGN {
            self.bits - SIGN
        } else {
            self.bits
        };
        m > INFINITE
    }

    pub fn is_positive(self) -> (r: bool)
        ensures
            r == self.positive(),
    {
        !self.is_nan() && self.bits > 0 && self.bits < SIGN
    }

    /// `self < other` of doubles.
    pub fn is_below(self, other: Measure) -> (r: bool)
        ensures
            r == self.below(other),
    {
        !self.is_nan() && !other.is_nan() && self.ranks_below(other)
    }

    /// Whether the rank of `self` is below that of `other`.
    pub fn ranks_below(self, other: Measure) -> (r: bool)
        ensures
            r == (self.rank() < other.rank()),
    {
        if self.bits >= SIGN {
            if other.bits >= SIGN {
                self.bits > other.bits
            } else {
                self.bits > SIGN || other.bits > 0
            }
        } else {
            other.bits < SIGN && self.bits < other.bits
        }
    }

    /// Whether `self` stands before `other` in the order of all patterns.
    pub fn is_totally_below(self, other: Measure) -> (r: bool)
        ensures
            r == (self.total_rank() < other.total_rank()),
    {
        if self.bits >= SIGN {
            other.bits < SIGN || self.bits > other.bits
        } else {
            other.bits < SIGN && self.bits < other.bits
        }
    }
}

} // verus!
