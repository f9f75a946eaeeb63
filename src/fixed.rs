//! A fixed-point real scalar: a signed 64-bit count of 2^-32 steps.
use vstd::prelude::*;
use crate::rules::{
    Identity, RealArithmetic, MagSquare, Inverse, PowersOfTen, UsefulReals, PowersOfE, Magnitude,
    Reals, pow10, lemma_pow10_monotone,
};
use vstd::arithmetic::div_mod::lemma_div_denominator;

verus! {

/// The number of raw steps in one unit.
pub const SCALE: i64 = 4294967296;

/// A real number held as `raw / 2^32`.
///
/// Every operation saturates at `-i64::MAX` and `i64::MAX`; the least
/// value, `i64::MIN`, is kept for the undefined sentinel, which no
/// arithmetic result takes.
#[derive(Clone, Copy, Debug, PartialEq, Eq, Structural)]
pub struct Fixed {
    pub raw: i64,
}

/// Clamps an integer to `[-i64::MAX, i64::MAX]`.
pub open spec fn clamp(v: int) -> int {
    if v > i64::MAX {
        i64::MAX as int
    } else if v < -i64::MAX {
        -i64::MAX as int
    } else {
        v
    }
}

/// The magnitude of an integer.
pub open spec fn abs(v: int) -> nat {
    if v < 0 {
        (-v) as nat
    } else {
        v as nat
    }
}

/// Applies the sign of `a * b` to the magnitude `m`.
pub open spec fn signed(a: int, b: int, m: int) -> int {
    if (a < 0) != (b < 0) {
        -m
    } else {
        m
    }
}

impl Fixed {
    pub open spec fn fixed(v: int) -> Fixed {
        Fixed { raw: clamp(v) as i64 }
    }

    /// Truncated product, rescaled.
    pub open spec fn product(a: int, b: int) -> int {
        clamp(signed(a, b, ((abs(a) * abs(b)) / (SCALE as nat)) as int))
    }

    /// Truncated quotient, rescaled; dividing a nonzero value by zero
    /// saturates in the sign of the dividend, and zero over zero is zero.
    pub open spec fn quotient(a: int, b: int) -> int {
        if b == 0 {
            if a > 0 {
                i64::MAX as int
            } else if a < 0 {
                -i64::MAX as int
            } else {
                0
            }
        } else {
            clamp(signed(a, b, ((abs(a) * (SCALE as nat)) / abs(b)) as int))
        }
    }

    /// Remainder of truncated division, with the sign of the dividend;
    /// a remainder by zero leaves the dividend.
    pub open spec fn remainder(a: int, b: int) -> int {
        if b == 0 {
            a
        } else if a < 0 {
            -((abs(a) % abs(b)) as int)
        } else {
            (abs(a) % abs(b)) as int
        }
    }

    /// A fixed-point value from its raw step count.
    pub fn from_raw(raw: i64) -> (r: Fixed)
        ensures
            r.raw == raw,
    {
        Fixed { raw }
    }

    /// The whole number `n`, exactly.
    pub fn from_int(n: i32) -> (r: Fixed)
        ensures
            r.raw == n as int * SCALE,
    {
        Fixed { raw: n as i64 * SCALE }
    }

    fn magnitude(v: i64) -> (r: u128)
        ensures
            r == abs(v as int),
    {
        if v < 0 {
            (0 - (v as i128)) as u128
        } else {
            v as u128
        }
    }

    fn from_wide(v: i128) -> (r: Fixed)
        ensures
            r.raw == clamp(v as int),
    {
        if v > i64::MAX as i128 {
            Fixed { raw: i64::MAX }
        } else if v < -(i64::MAX as i128) {
            Fixed { raw: -i64::MAX }
        } else {
            Fixed { raw: v as i64 }
        }
    }
}

impl Identity for Fixed {
    open spec fn spec_zero() -> Fixed {
        Fixed { raw: 0 }
    }

    open spec fn spec_one() -> Fixed {
        Fixed { raw: SCALE }
    }

    open spec fn spec_seed() -> Fixed {
        Fixed { raw: SCALE }
    }

    fn zero() -> (r: Fixed) {
        Fixed { raw: 0 }
    }

    fn one() -> (r: Fixed) {
        Fixed { raw: SCALE }
    }

    fn seed() -> (r: Fixed) {
        Fixed { raw: SCALE }
    }
}

impl RealArithmetic for Fixed {
    open spec fn spec_negate(self) -> Fixed {
        Fixed::fixed(-(self.raw as int))
    }

    open spec fn spec_plus(self, rhs: Fixed) -> Fixed {
        Fixed::fixed(self.raw + rhs.raw)
    }

    open spec fn spec_minus(self, rhs: Fixed) -> Fixed {
        Fixed::fixed(self.raw - rhs.raw)
    }

    open spec fn spec_times(self, rhs: Fixed) -> Fixed {
        Fixed::fixed(Fixed::product(self.raw as int, rhs.raw as int))
    }

    open spec fn spec_divide(self, rhs: Fixed) -> Fixed {
        Fixed::fixed(Fixed::quotient(self.raw as int, rhs.raw as int))
    }

    open spec fn spec_modulo(self, rhs: Fixed) -> Fixed {
        Fixed::fixed(Fixed::remainder(self.raw as int, rhs.raw as int))
    }

    open spec fn spec_lt(self, rhs: Fixed) -> bool {
        self.raw < rhs.raw
    }

    open spec fn spec_regular(self) -> bool {
        self.raw != i64::MIN
    }

    fn negate(self) -> (r: Fixed) {
        Fixed::from_wide(0 - self.raw as i128)
    }

    fn plus(self, rhs: Fixed) -> (r: Fixed) {
        Fixed::from_wide(self.raw as i128 + rhs.raw as i128)
    }

    fn minus(self, rhs: Fixed) -> (r: Fixed) {
        Fixed::from_wide(self.raw as i128 - rhs.raw as i128)
    }

    fn times(self, rhs: Fixed) -> (r: Fixed) {
        let a = Fixed::magnitude(self.raw);
        let b = Fixed::magnitude(rhs.raw);
        assert(a * b <= 0x4000_0000_0000_0000_0000_0000_0000_0000) by (nonlinear_arith)
            requires
                a <= 0x8000_0000_0000_0000u128,
                b <= 0x8000_0000_0000_0000u128,
        ;
        let p: u128 = a * b;
        let m: u128 = p / (SCALE as u128);
        assert(m <= 0x4000_0000_0000_0000_0000_0000) by (nonlinear_arith)
            requires
                p <= 0x4000_0000_0000_0000_0000_0000_0000_0000,
                m == p / 4294967296,
        ;
        let w: i128 = if (self.raw < 0) != (rhs.raw < 0) {
            0 - m as i128
        } else {
            m as i128
        };
        Fixed::from_wide(w)
    }

    fn divide(self, rhs: Fixed) -> (r: Fixed) {
        if rhs.raw == 0 {
            if self.raw > 0 {
                Fixed { raw: i64::MAX }
            } else if self.raw < 0 {
                Fixed { raw: -i64::MAX }
            } else {
                Fixed { raw: 0 }
            }
        } else {
            let a = Fixed::magnitude(self.raw);
            let b = Fixed::magnitude(rhs.raw);
            assert(a * 4294967296 <= 0x8000_0000_0000_0000_0000_0000) by (nonlinear_arith)
                requires
                    a <= 0x8000_0000_0000_0000u128,
            ;
            let n: u128 = a * (SCALE as u128);
            let m: u128 = n / b;
            assert(m <= n) by (nonlinear_arith)
                requires
                    b >= 1,
                    m == n / b,
            ;
            let w: i128 = if (self.raw < 0) != (rhs.raw < 0) {
                0 - m as i128
            } else {
                m as i128
            };
            Fixed::from_wide(w)
        }
    }

    fn modulo(self, rhs: Fixed) -> (r: Fixed) {
        if rhs.raw == 0 {
            Fixed::from_wide(self.raw as i128)
        } else {
            let a = Fixed::magnitude(self.raw);
            let b = Fixed::magnitude(rhs.raw);
            let m: u128 = a % b;
            if self.raw < 0 {
                Fixed::from_wide(0 - m as i128)
            } else {
                Fixed::from_wide(m as i128)
            }
        }
    }

    fn less_than(self, rhs: Fixed) -> (r: bool) {
        self.raw < rhs.raw
    }

    proof fn lemma_identities(a: Fixed) {
        let x = abs(a.raw as int);
        assert(x * (SCALE as nat) / (SCALE as nat) == x) by (nonlinear_arith);
        assert((SCALE as nat) * x / (SCALE as nat) == x) by (nonlinear_arith);
        assert(0 * x == 0);
        assert(x * 0 == 0);
    }
}

impl MagSquare for Fixed {
    open spec fn spec_mag2(self) -> Fixed {
        self.spec_times(self)
    }

    fn mag2(self) -> (r: Fixed) {
        self.times(self)
    }
}

impl Inverse for Fixed {
    open spec fn spec_inv(self) -> Fixed {
        Fixed::spec_one().spec_divide(self)
    }

    fn inv(self) -> (r: Fixed) {
        Fixed::one().divide(self)
    }
}

impl PowersOfTen for Fixed {
    open spec fn order_of_in_range(power: isize) -> bool {
        true
    }

    /// `10^power`, saturated above and truncated below.
    open spec fn spec_order_of(power: isize) -> Fixed {
        if power < 0 {
            Fixed { raw: (SCALE as nat / pow10((-power) as nat)) as i64 }
        } else {
            Fixed::fixed(SCALE * pow10(power as nat))
        }
    }

    fn order_of(power: isize) -> (r: Fixed) {
        let mut k: isize = 0;
        if power >= 0 {
            let mut raw: i128 = SCALE as i128;
            while k < power
                invariant
                    0 <= k <= power,
                    SCALE * pow10(k as nat) <= i64::MAX ==> raw == SCALE * pow10(k as nat),
                    SCALE * pow10(k as nat) > i64::MAX ==> i64::MAX < raw <= 10 * i64::MAX,
                decreases power - k,
            {
                if raw <= i64::MAX as i128 {
                    raw = raw * 10;
                }
                k = k + 1;
            }
            Fixed::from_wide(raw)
        } else {
            let mut raw: u64 = SCALE as u64;
            assert(pow10(0) == 1);
            assert(SCALE as nat / 1 == SCALE);
            while k > power
                invariant
                    power <= k <= 0,
                    raw <= SCALE,
                    raw == SCALE as nat / pow10((-k) as nat),
                decreases k - power,
            {
                proof {
                    lemma_pow10_monotone(0, (-k) as nat);
                    lemma_div_denominator(SCALE as int, pow10((-k) as nat) as int, 10);
                    assert(pow10((-(k - 1)) as nat) == pow10((-k) as nat) * 10);
                }
                raw = raw / 10;
                k = k - 1;
            }
            Fixed { raw: raw as i64 }
        }
    }
}

impl UsefulReals for Fixed {
    open spec fn spec_two() -> Fixed {
        Fixed { raw: 8589934592 }
    }

    open spec fn spec_e() -> Fixed {
        Fixed { raw: 11674931555 }
    }

    open spec fn spec_tau() -> Fixed {
        Fixed { raw: 26986075410 }
    }

    open spec fn spec_pi() -> Fixed {
        Fixed { raw: 13493037705 }
    }

    open spec fn spec_halfpi() -> Fixed {
        Fixed { raw: 6746518852 }
    }

    open spec fn spec_qtrpi() -> Fixed {
        Fixed { raw: 3373259426 }
    }

    open spec fn spec_undef() -> Fixed {
        Fixed { raw: i64::MIN }
    }

    fn two() -> (r: Fixed) {
        Fixed { raw: 8589934592 }
    }

    fn e() -> (r: Fixed) {
        Fixed { raw: 11674931555 }
    }

    fn tau() -> (r: Fixed) {
        Fixed { raw: 26986075410 }
    }

    fn pi() -> (r: Fixed) {
        Fixed { raw: 13493037705 }
    }

    fn halfpi() -> (r: Fixed) {
        Fixed { raw: 6746518852 }
    }

    fn qtrpi() -> (r: Fixed) {
        Fixed { raw: 3373259426 }
    }

    fn undef() -> (r: Fixed) {
        Fixed { raw: i64::MIN }
    }
}

impl PowersOfE for Fixed {

}

impl Magnitude for Fixed {

}

impl Reals for Fixed {
    proof fn lemma_order_of_total(power: isize) {
    }
}

} // verus!
