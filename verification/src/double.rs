//! IEEE 754 double-precision numbers, held as their bit patterns.
//!
//! Prices, volumes and volatilities arrive as doubles. This module tells which patterns are
//! usable numbers and compares them; it does no arithmetic.
use vstd::arithmetic::power2::pow2;
use vstd::prelude::*;

verus! {

/// The weight of the sign bit.
pub const SIGN_WEIGHT: u64 = 0x8000_0000_0000_0000;

/// The magnitude bits of an infinity; smaller magnitudes are finite, larger ones no number.
pub const INFINITE_MAGNITUDE: u64 = 0x7ff0_0000_0000_0000;

/// How many magnitudes share one exponent.
pub const FRACTION_COUNT: u64 = 0x0010_0000_0000_0000;

/// A double, as the 64 bits of its IEEE 754 encoding. `==` compares the bits.
#[derive(Clone, Copy, Debug, PartialEq, Eq, Structural)]
pub struct Double {
    pub bits: u64,
}

/// The distance from zero of the double with magnitude bits `m`, in units of the smallest
/// positive double: a fraction below the first exponent, and from there on a fraction with a
/// leading one, doubled with each exponent. An infinity takes the place above every finite double.
pub open spec fn size(m: int) -> nat {
    let exponent = m / FRACTION_COUNT as int;
    let fraction = m % FRACTION_COUNT as int;
    if exponent == 0 {
        fraction as nat
    } else {
        ((FRACTION_COUNT + fraction) * pow2((exponent - 1) as nat)) as nat
    }
}

proof fn lemma_size_grows(m1: int, m2: int)
    requires
        0 <= m1 < m2 < SIGN_WEIGHT,
    ensures
        size(m1) < size(m2),
{
    let c = FRACTION_COUNT as int;
    let (e1, f1) = (m1 / c, m1 % c);
    let (e2, f2) = (m2 / c, m2 % c);
    assert(m1 == e1 * c + f1 && m2 == e2 * c + f2);
    assert(e1 <= e2);
    assert(0 <= f1 < c && 0 <= f2 < c);
    vstd::arithmetic::power2::lemma2_to64();
    if e1 == e2 {
        if e1 > 0 {
            let p = pow2((e1 - 1) as nat) as int;
            vstd::arithmetic::power2::lemma_pow2_pos((e1 - 1) as nat);
            assert((c + f1) * p < (c + f2) * p) by (nonlinear_arith)
                requires
                    f1 < f2,
                    p > 0,
            ;
        }
    } else {
        let q = pow2((e2 - 1) as nat) as int;
        vstd::arithmetic::power2::lemma_pow2_pos((e2 - 1) as nat);
        assert(c * q <= (c + f2) * q) by (nonlinear_arith)
            requires
                0 <= f2,
                q > 0,
        ;
        if e1 == 0 {
            assert(f1 < c * q) by (nonlinear_arith)
                requires
                    0 <= f1 < c,
                    q >= 1,
            ;
        } else {
            let p = pow2((e1 - 1) as nat) as int;
            vstd::arithmetic::power2::lemma_pow2_pos((e1 - 1) as nat);
            vstd::arithmetic::power2::lemma_pow2_unfold(e1 as nat);
            if e1 < e2 - 1 {
                vstd::arithmetic::power2::lemma_pow2_strictly_increases(
                    e1 as nat,
                    (e2 - 1) as nat,
                );
            }
            assert((c + f1) * p < c * q) by (nonlinear_arith)
                requires
                    0 <= f1 < c,
                    p > 0,
                    2 * p <= q,
            ;
        }
    }
}

impl Double {
    /// The bits that hold the distance from zero.
    pub open spec fn magnitude(self) -> int {
        if self.bits < SIGN_WEIGHT {
            self.bits as int
        } else {
            self.bits - SIGN_WEIGHT
        }
    }

    /// Whether the pattern stands for a number, infinities counted.
    pub open spec fn is_number(self) -> bool {
        self.magnitude() <= INFINITE_MAGNITUDE
    }

    /// Whether the pattern stands for a finite number.
    pub open spec fn finite(self) -> bool {
        self.magnitude() < INFINITE_MAGNITUDE
    }

    /// The number, in units of the smallest positive double. Both zeros are 0.
    pub open spec fn value(self) -> int {
        if self.bits < SIGN_WEIGHT {
            size(self.magnitude()) as int
        } else {
            -(size(self.magnitude()) as int)
        }
    }

    /// Whether both are numbers and `self` is the smaller.
    pub open spec fn below(self, other: Double) -> bool {
        self.is_number() && other.is_number() && self.value() < other.value()
    }

    fn magnitude_bits(&self) -> (m: u64)
        ensures
            m == self.magnitude(),
    {
        if self.bits < SIGN_WEIGHT {
            self.bits
        } else {
            self.bits - SIGN_WEIGHT
        }
    }

    /// Whether the number is finite.
    pub fn is_finite(&self) -> (r: bool)
        ensures
            r == self.finite(),
    {
        self.magnitude_bits() < INFINITE_MAGNITUDE
    }

    /// Whether this is a number greater than zero.
    pub fn is_positive(&self) -> (r: bool)
        ensures
            r == (self.is_number() && self.value() > 0),
    {
        proof {
            if 0 < self.magnitude() {
                lemma_size_grows(0, self.magnitude());
            }
            assert(size(0) == 0);
        }
        0 < self.bits && self.bits <= INFINITE_MAGNITUDE
    }

    /// Whether both are numbers and `self` is less than `other`.
    pub fn less(&self, other: &Double) -> (r: bool)
        ensures
            r == self.below(*other),
    {
        let m1: u64 = self.magnitude_bits();
        let m2: u64 = other.magnitude_bits();
        proof {
            assert(size(0) == 0);
            if m1 < m2 {
                lemma_size_grows(m1 as int, m2 as int);
            } else if m2 < m1 {
                lemma_size_grows(m2 as int, m1 as int);
            }
            if 0 < m1 {
                lemma_size_grows(0, m1 as int);
            }
            if 0 < m2 {
                lemma_size_grows(0, m2 as int);
            }
        }
        if m1 > INFINITE_MAGNITUDE || m2 > INFINITE_MAGNITUDE {
            return false;
        }
        match (self.bits < SIGN_WEIGHT, other.bits < SIGN_WEIGHT) {
            (true, true) => m1 < m2,
            (true, false) => false,
            (false, true) => 0 < m1 || 0 < m2,
            (false, false) => m2 < m1,
        }
    }

    /// Whether both are numbers and `self` is at least `other`.
    pub fn at_least(&self, other: &Double) -> (r: bool)
        ensures
            r == (self.is_number() && other.is_number() && self.value() >= other.value()),
    {
        self.magnitude_bits() <= INFINITE_MAGNITUDE && other.magnitude_bits() <= INFINITE_MAGNITUDE
            && !self.less(other)
    }
}

/// Doubles by their bits. The lower 63 bits are the size, the top bit the sign; sizes below
/// `0x7ff0_0000_0000_0000` are finite, that one is an infinity, and those above are no numbers.
/// Numbers are ordered as their sizes are, the sign taken into account.
pub proof fn law_order_is_that_of_the_bits(a: Double, b: Double)
    ensures
        ({
            let infinite = 0x7ff0_0000_0000_0000int;
            let sign = 0x8000_0000_0000_0000int;
            let (m, n) = (a.bits as int % sign, b.bits as int % sign);
            let x = if (a.bits as int) < sign {
                m
            } else {
                -m
            };
            let y = if (b.bits as int) < sign {
                n
            } else {
                -n
            };
            &&& a.finite() <==> m < infinite
            &&& a.is_number() <==> m <= infinite
            &&& a.below(b) <==> m <= infinite && n <= infinite && x < y
            &&& a.value() < b.value() <==> x < y
            &&& a.value() == 0 <==> m == 0
            &&& a.value() > 0 <==> x > 0
        }),
{
    let (m, n) = (a.magnitude(), b.magnitude());
    assert(size(0) == 0);
    if m < n {
        lemma_size_grows(m, n);
    } else if n < m {
        lemma_size_grows(n, m);
    }
    if 0 < m {
        lemma_size_grows(0, m);
    }
    if 0 < n {
        lemma_size_grows(0, n);
    }
}

} // verus!
