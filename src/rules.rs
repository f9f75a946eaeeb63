//! Capability traits: what a scalar must supply before the engine can use it.
use vstd::prelude::*;

verus! {

/// Identity elements, and the seed that Newton iterations start from.
pub trait Identity: Sized + Copy {
    spec fn spec_zero() -> Self;

    spec fn spec_one() -> Self;

    spec fn spec_seed() -> Self;

    fn zero() -> (r: Self)
        ensures
            r == Self::spec_zero(),
    ;

    fn one() -> (r: Self)
        ensures
            r == Self::spec_one(),
    ;

    fn seed() -> (r: Self)
        ensures
            r == Self::spec_seed(),
    ;
}

/// The four operations, remainder, negation and an order, each total.
///
/// Each operation is described by a spec function; the laws that every
/// implementation proves are that `ZERO` is the additive and `ONE` the
/// multiplicative identity of every regular value (every value but an
/// undefined one), that `ZERO` absorbs products and quotients, and that the
/// order is irreflexive.
pub trait RealArithmetic: Identity {
    spec fn spec_negate(self) -> Self;

    spec fn spec_plus(self, rhs: Self) -> Self;

    spec fn spec_minus(self, rhs: Self) -> Self;

    spec fn spec_times(self, rhs: Self) -> Self;

    spec fn spec_divide(self, rhs: Self) -> Self;

    spec fn spec_modulo(self, rhs: Self) -> Self;

    spec fn spec_lt(self, rhs: Self) -> bool;

    /// Whether the value is an ordinary number rather than undefined.
    spec fn spec_regular(self) -> bool;

    fn negate(self) -> (r: Self)
        ensures
            r == self.spec_negate(),
    ;

    fn plus(self, rhs: Self) -> (r: Self)
        ensures
            r == self.spec_plus(rhs),
    ;

    fn minus(self, rhs: Self) -> (r: Self)
        ensures
            r == self.spec_minus(rhs),
    ;

    fn times(self, rhs: Self) -> (r: Self)
        ensures
            r == self.spec_times(rhs),
    ;

    fn divide(self, rhs: Self) -> (r: Self)
        ensures
            r == self.spec_divide(rhs),
    ;

    fn modulo(self, rhs: Self) -> (r: Self)
        ensures
            r == self.spec_modulo(rhs),
    ;

    fn less_than(self, rhs: Self) -> (r: bool)
        ensures
            r == self.spec_lt(rhs),
    ;

    proof fn lemma_identities(a: Self)
        ensures
            Self::spec_zero().spec_regular(),
            Self::spec_one().spec_regular(),
            a.spec_regular() ==> Self::spec_zero().spec_plus(a) == a,
            a.spec_regular() ==> a.spec_plus(Self::spec_zero()) == a,
            a.spec_regular() ==> a.spec_minus(Self::spec_zero()) == a,
            a.spec_regular() ==> Self::spec_one().spec_times(a) == a,
            a.spec_regular() ==> a.spec_times(Self::spec_one()) == a,
            Self::spec_zero().spec_times(a) == Self::spec_zero(),
            a.spec_times(Self::spec_zero()) == Self::spec_zero(),
            Self::spec_zero().spec_divide(a) == Self::spec_zero(),
            Self::spec_zero().spec_modulo(a) == Self::spec_zero(),
            Self::spec_zero().spec_negate() == Self::spec_zero(),
            !a.spec_lt(a),
    ;
}

/// The squared norm, used wherever convergence is measured.
pub trait MagSquare: RealArithmetic {
    spec fn spec_mag2(self) -> Self;

    fn mag2(self) -> (r: Self)
        ensures
            r == self.spec_mag2(),
    ;
}

/// The multiplicative inverse; on zero it gives whatever the scalar's
/// division gives.
pub trait Inverse: Sized {
    spec fn spec_inv(self) -> Self;

    fn inv(self) -> (r: Self)
        ensures
            r == self.spec_inv(),
    ;
}

/// `10^k`.
pub open spec fn pow10(k: nat) -> nat
    decreases k,
{
    if k == 0 {
        1
    } else {
        10 * pow10((k - 1) as nat)
    }
}

/// Powers of ten grow with the exponent.
pub proof fn lemma_pow10_monotone(a: nat, b: nat)
    requires
        a <= b,
    ensures
        1 <= pow10(a) <= pow10(b),
    decreases b,
{
    if b > a {
        lemma_pow10_monotone(a, (b - 1) as nat);
    } else if a > 0 {
        lemma_pow10_monotone((a - 1) as nat, (a - 1) as nat);
    }
}

/// Integer powers of ten.
pub trait PowersOfTen: Identity {
    /// Whether `10^power` can be formed in this type.
    spec fn order_of_in_range(power: isize) -> bool;

    spec fn spec_order_of(power: isize) -> Self;

    fn order_of(power: isize) -> (r: Self)
        requires
            Self::order_of_in_range(power),
        ensures
            r == Self::spec_order_of(power),
    ;
}

/// Named constants, and the sentinel returned outside a function's domain.
pub trait UsefulReals: RealArithmetic {
    spec fn spec_two() -> Self;

    spec fn spec_e() -> Self;

    spec fn spec_tau() -> Self;

    spec fn spec_pi() -> Self;

    spec fn spec_halfpi() -> Self;

    spec fn spec_qtrpi() -> Self;

    spec fn spec_undef() -> Self;

    fn two() -> (r: Self)
        ensures
            r == Self::spec_two(),
    ;

    fn e() -> (r: Self)
        ensures
            r == Self::spec_e(),
    ;

    fn tau() -> (r: Self)
        ensures
            r == Self::spec_tau(),
    ;

    fn pi() -> (r: Self)
        ensures
            r == Self::spec_pi(),
    ;

    fn halfpi() -> (r: Self)
        ensures
            r == Self::spec_halfpi(),
    ;

    fn qtrpi() -> (r: Self)
        ensures
            r == Self::spec_qtrpi(),
    ;

    fn undef() -> (r: Self)
        ensures
            r == Self::spec_undef(),
    ;
}

/// `E` multiplied by itself `k` times, starting from `ONE`.
pub open spec fn e_power<T: UsefulReals>(k: nat) -> T
    decreases k,
{
    if k == 0 {
        T::spec_one()
    } else {
        e_power::<T>((k - 1) as nat).spec_times(T::spec_e())
    }
}

/// `e^power` for an integer power: a product of `E`s, inverted for a
/// negative power.
pub open spec fn etothe_of<T: UsefulReals + Inverse>(power: int) -> T {
    if power < 0 {
        e_power::<T>((-power) as nat).spec_inv()
    } else {
        e_power::<T>(power as nat)
    }
}

/// Integer powers of `E`.
pub trait PowersOfE: UsefulReals + Inverse {
    fn etothe(power: isize) -> (r: Self)
        ensures
            r == etothe_of::<Self>(power as int),
    {
        let e = Self::e();
        let mut running = Self::one();
        let mut k: isize = 0;
        if power >= 0 {
            while k < power
                invariant
                    0 <= k <= power,
                    e == Self::spec_e(),
                    running == e_power::<Self>(k as nat),
                decreases power - k,
            {
                running = running.times(e);
                k = k + 1;
            }
            running
        } else {
            while k > power
                invariant
                    power <= k <= 0,
                    e == Self::spec_e(),
                    running == e_power::<Self>((-k) as nat),
                decreases k - power,
            {
                running = running.times(e);
                k = k - 1;
            }
            running.inv()
        }
    }
}

/// How many Newton steps a square root may take.
pub const ROOT_STEPS: usize = 1000;

/// One Newton step towards the square root of `a`.
pub open spec fn root_step<T: UsefulReals>(a: T, t: T) -> T {
    t.spec_minus(t.spec_times(t).spec_minus(a).spec_divide(T::spec_two().spec_times(t)))
}

/// Newton's iteration for a square root from the pair `(t1, t2)`: it stops
/// once two successive iterates differ by no more than `error` in squared
/// norm, or when `fuel` steps are spent.
pub open spec fn root_iterate<T: UsefulReals + MagSquare>(
    a: T,
    error: T,
    t1: T,
    t2: T,
    fuel: nat,
) -> T
    decreases fuel,
{
    if fuel == 0 || !error.spec_lt(t2.spec_minus(t1).spec_mag2()) {
        t2
    } else {
        root_iterate(a, error, t2, root_step(a, t2), (fuel - 1) as nat)
    }
}

/// The square root found by Newton's iteration from `SEED`.
pub open spec fn root_of<T: UsefulReals + MagSquare>(a: T, error: T) -> T {
    root_iterate(
        a,
        error,
        T::spec_seed(),
        T::spec_seed().spec_plus(T::spec_one()),
        ROOT_STEPS as nat,
    )
}

/// Square roots and magnitudes.
pub trait Magnitude: MagSquare + UsefulReals {
    /// The square root of `self`, to within `error` between the last two
    /// iterates.
    fn rrt(self, error: Self) -> (r: Self)
        ensures
            r == root_of(self, error),
    {
        let one = Self::one();
        let two = Self::two();
        let mut t1 = Self::seed();
        let mut t2 = t1.plus(one);
        let mut fuel: usize = ROOT_STEPS;
        while fuel > 0 && error.less_than(t2.minus(t1).mag2())
            invariant
                one == Self::spec_one(),
                two == Self::spec_two(),
                root_iterate(self, error, t1, t2, fuel as nat) == root_of(self, error),
            decreases fuel,
        {
            t1 = t2;
            t2 = t2.minus(t2.times(t2).minus(self).divide(two.times(t2)));
            fuel = fuel - 1;
        }
        t2
    }

    /// The magnitude: the square root of the squared norm.
    fn mag1(self, error: Self) -> (r: Self)
        ensures
            r == root_of(self.spec_mag2(), error),
    {
        self.mag2().rrt(error)
    }
}

/// Everything the transcendental functions need.
pub trait Reals: RealArithmetic + Inverse + Magnitude + PowersOfTen + PowersOfE + UsefulReals {
    proof fn lemma_order_of_total(power: isize)
        ensures
            Self::order_of_in_range(power),
    ;
}

} // verus!
