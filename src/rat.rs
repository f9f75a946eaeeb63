//! Rational numbers over a machine integer type, kept in lowest terms by
//! their constructor.
use vstd::prelude::*;
use crate::rules::{Identity, PowersOfTen};
use crate::ints::Whole;

verus! {

/// Euclid's greatest common divisor; `gcd(0, 0) = 0`.
pub open spec fn gcd(a: nat, b: nat) -> nat
    decreases b,
{
    if b == 0 {
        a
    } else {
        gcd(b, a % b)
    }
}

/// The magnitude of an integer.
pub open spec fn nat_abs(v: int) -> nat {
    if v < 0 {
        (-v) as nat
    } else {
        v as nat
    }
}

/// `gcd(a, b) = gcd(b, a)`.
pub proof fn lemma_gcd_swap(a: nat, b: nat)
    ensures
        gcd(a, b) == gcd(b, a),
{
    if a == 0 && b == 0 {
    } else if a == 0 {
        assert(0nat % b == 0) by (nonlinear_arith)
            requires
                b > 0,
        ;
        assert(gcd(0, b) == gcd(b, 0));
    } else if b == 0 {
        assert(0nat % a == 0) by (nonlinear_arith)
            requires
                a > 0,
        ;
        assert(gcd(0, a) == gcd(a, 0));
    } else if a < b {
        assert(a % b == a) by (nonlinear_arith)
            requires
                a < b,
        ;
        assert(gcd(a, b) == gcd(b, a % b));
    } else if a > b {
        assert(b % a == b) by (nonlinear_arith)
            requires
                b < a,
        ;
        assert(gcd(b, a) == gcd(a, b % a));
    }
}

/// The numerator of `n / d` in lowest terms: `|n| / gcd(|n|, |d|)`,
/// negative when exactly one of `n` and `d` is.
pub open spec fn lowest_num(n: int, d: int) -> int {
    let m = (nat_abs(n) / gcd(nat_abs(n), nat_abs(d))) as int;
    if (n < 0) != (d < 0) {
        -m
    } else {
        m
    }
}

/// The denominator of `n / d` in lowest terms: `|d| / gcd(|n|, |d|)`.
pub open spec fn lowest_den(n: int, d: int) -> int {
    (nat_abs(d) / gcd(nat_abs(n), nat_abs(d))) as int
}

/// A rational number `n / d`.
#[derive(Clone, Copy, Debug)]
pub struct Rat<R> {
    pub n: R,
    pub d: R,
}

impl<R: Whole> Rat<R> {
    /// The pair as given, not reduced.
    pub fn raw(n: R, d: R) -> (q: Self)
        ensures
            q.n == n,
            q.d == d,
    {
        Rat { n, d }
    }

    /// `n / d` in lowest terms, the sign carried by the numerator.
    pub fn new(n: R, d: R) -> (q: Self)
        requires
            n.val() != 0 || d.val() != 0,
            n.val() > R::least(),
            d.val() > R::least(),
        ensures
            q.n.val() == lowest_num(n.val(), d.val()),
            q.d.val() == lowest_den(n.val(), d.val()),
    {
        let mut n = n;
        let mut d = d;
        let mut positive = true;
        if n.is_negative() {
            positive = !positive;
            n = n.opposite();
        }
        if d.is_negative() {
            positive = !positive;
            d = d.opposite();
        }
        let factor = gcf(n, d);
        proof {
            lemma_gcd_positive(n.val() as nat, d.val() as nat);
            R::lemma_range(n);
        }
        n = n.quot(factor);
        d = d.quot(factor);
        if !positive {
            n = n.opposite();
        }
        Rat { n, d }
    }

    /// The whole number `n`, over one.
    pub fn whole(n: R) -> (q: Self)
        ensures
            q.n == n,
            q.d == R::spec_one(),
    {
        Rat { n, d: R::one() }
    }
}

impl<R: Whole> Identity for Rat<R> {
    open spec fn spec_zero() -> Self {
        Rat { n: R::spec_zero(), d: R::spec_one() }
    }

    open spec fn spec_one() -> Self {
        Rat { n: R::spec_one(), d: R::spec_one() }
    }

    open spec fn spec_seed() -> Self {
        Rat { n: R::spec_one(), d: R::spec_one() }
    }

    fn zero() -> (q: Self) {
        Rat { n: R::zero(), d: R::one() }
    }

    fn one() -> (q: Self) {
        Rat { n: R::one(), d: R::one() }
    }

    fn seed() -> (q: Self) {
        Rat { n: R::one(), d: R::one() }
    }
}

impl<R: Whole + PowersOfTen> PowersOfTen for Rat<R> {
    open spec fn order_of_in_range(power: isize) -> bool {
        if power < 0 {
            power > isize::MIN && R::order_of_in_range(-power as isize)
        } else {
            R::order_of_in_range(power)
        }
    }

    /// `10^power` over one, or one over `10^-power`.
    open spec fn spec_order_of(power: isize) -> Self {
        if power < 0 {
            Rat { n: R::spec_one(), d: R::spec_order_of(-power as isize) }
        } else {
            Rat { n: R::spec_order_of(power), d: R::spec_one() }
        }
    }

    fn order_of(power: isize) -> (q: Self) {
        if power < 0 {
            Rat { n: R::one(), d: R::order_of(-power) }
        } else {
            Rat { n: R::order_of(power), d: R::one() }
        }
    }
}

/// The gcd of two numbers, not both zero, is positive.
pub proof fn lemma_gcd_positive(a: nat, b: nat)
    requires
        a != 0 || b != 0,
    ensures
        gcd(a, b) > 0,
    decreases b,
{
    if b != 0 {
        assert(a % b < b) by (nonlinear_arith)
            requires
                b > 0,
        ;
        lemma_gcd_positive(b, a % b);
    }
}

/// The greatest common factor of two non-negative integers, by repeated
/// remainders of the larger by the smaller.
pub fn gcf<R: Whole>(inp1: R, inp2: R) -> (r: R)
    requires
        inp1.val() >= 0,
        inp2.val() >= 0,
    ensures
        r.val() == gcd(inp1.val() as nat, inp2.val() as nat),
{
    let zero = R::zero();
    let mut n1 = inp1;
    let mut n2 = inp2;
    proof {
        R::lemma_range(zero);
    }
    loop
        invariant
            zero.val() == 0,
            n1.val() >= 0,
            n2.val() >= 0,
            gcd(n1.val() as nat, n2.val() as nat) == gcd(inp1.val() as nat, inp2.val() as nat),
        decreases n1.val() + n2.val(),
    {
        let ghost a = n1.val() as nat;
        let ghost b = n2.val() as nat;
        if n1.same(zero) {
            proof {
                lemma_gcd_swap(a, b);
            }
            return n2;
        }
        if n2.same(zero) {
            return n1;
        }
        if n1.above(n2) {
            proof {
                assert(a % b < b && (a % b) % b == a % b && a % b <= a) by (nonlinear_arith)
                    requires
                        b > 0,
                        a > b,
                ;
                lemma_gcd_swap(a % b, b);
                assert(gcd(a, b) == gcd(b, a % b));
            }
            n1 = n1.rest(n2);
        } else if n2.above(n1) {
            proof {
                assert(b % a < a && a % b == a) by (nonlinear_arith)
                    requires
                        a > 0,
                        b > a,
                ;
                assert(gcd(a, b) == gcd(b, a % b));
                assert(gcd(b, a) == gcd(a, b % a));
            }
            n2 = n2.rest(n1);
        } else {
            proof {
                assert(a % a == 0) by (nonlinear_arith)
                    requires
                        a > 0,
                ;
                assert(gcd(a, a) == gcd(a, a % a));
            }
            return n1;
        }
    }
}

} // verus!
