//! Complex numbers over any real-like scalar, built componentwise, so that
//! they carry the whole capability set again.
use vstd::prelude::*;
use crate::rules::{
    Identity, RealArithmetic, MagSquare, Inverse, PowersOfTen, UsefulReals, PowersOfE, Magnitude,
    Reals,
};

verus! {

/// The complex number `r + i·i`.
#[derive(Clone, Copy, Debug, PartialEq, Eq, Structural)]
pub struct Comp<R> {
    pub r: R,
    pub i: R,
}

impl<R: RealArithmetic> Comp<R> {
    pub fn new(r: R, i: R) -> (z: Self)
        ensures
            z == (Comp { r, i }),
    {
        Comp { r, i }
    }

    /// A number with no imaginary part.
    pub fn nre(r: R) -> (z: Self)
        ensures
            z == (Comp { r, i: R::spec_zero() }),
    {
        Comp { r, i: R::zero() }
    }

    /// A number with no real part.
    pub fn nim(i: R) -> (z: Self)
        ensures
            z == (Comp { r: R::spec_zero(), i }),
    {
        Comp { r: R::zero(), i }
    }

    /// The conjugate, `r - i·i`.
    pub fn conj(self) -> (z: Self)
        ensures
            z == (Comp { r: self.r, i: self.i.spec_negate() }),
    {
        Comp { r: self.r, i: self.i.negate() }
    }

    /// Left multiplication by `i`: a quarter turn counter-clockwise.
    pub open spec fn spec_ccw(self) -> Self {
        Comp { r: self.i.spec_negate(), i: self.r }
    }

    /// Left multiplication by `-i`: a quarter turn clockwise.
    pub open spec fn spec_cw(self) -> Self {
        Comp { r: self.i, i: self.r.spec_negate() }
    }

    pub fn ccw(self) -> (z: Self)
        ensures
            z == self.spec_ccw(),
    {
        Comp { r: self.i.negate(), i: self.r }
    }

    pub fn cw(self) -> (z: Self)
        ensures
            z == self.spec_cw(),
    {
        Comp { r: self.i, i: self.r.negate() }
    }

    /// `r² + i²`, the squared norm as a real.
    pub open spec fn norm2(self) -> R {
        self.r.spec_times(self.r).spec_plus(self.i.spec_times(self.i))
    }

    fn norm2_exec(self) -> (n: R)
        ensures
            n == self.norm2(),
    {
        self.r.times(self.r).plus(self.i.times(self.i))
    }
}

impl<R: RealArithmetic> Identity for Comp<R> {
    open spec fn spec_zero() -> Self {
        Comp { r: R::spec_zero(), i: R::spec_zero() }
    }

    open spec fn spec_one() -> Self {
        Comp { r: R::spec_one(), i: R::spec_zero() }
    }

    open spec fn spec_seed() -> Self {
        Comp { r: R::spec_one(), i: R::spec_one() }
    }

    fn zero() -> (z: Self) {
        Comp { r: R::zero(), i: R::zero() }
    }

    fn one() -> (z: Self) {
        Comp { r: R::one(), i: R::zero() }
    }

    fn seed() -> (z: Self) {
        Comp { r: R::one(), i: R::one() }
    }
}

impl<R: RealArithmetic> RealArithmetic for Comp<R> {
    open spec fn spec_negate(self) -> Self {
        Comp { r: self.r.spec_negate(), i: self.i.spec_negate() }
    }

    open spec fn spec_plus(self, rhs: Self) -> Self {
        Comp { r: self.r.spec_plus(rhs.r), i: self.i.spec_plus(rhs.i) }
    }

    open spec fn spec_minus(self, rhs: Self) -> Self {
        Comp { r: self.r.spec_minus(rhs.r), i: self.i.spec_minus(rhs.i) }
    }

    open spec fn spec_times(self, rhs: Self) -> Self {
        Comp {
            r: self.r.spec_times(rhs.r).spec_minus(self.i.spec_times(rhs.i)),
            i: self.i.spec_times(rhs.r).spec_plus(self.r.spec_times(rhs.i)),
        }
    }

    open spec fn spec_divide(self, rhs: Self) -> Self {
        Comp {
            r: self.r.spec_times(rhs.r).spec_plus(self.i.spec_times(rhs.i)).spec_divide(
                rhs.norm2(),
            ),
            i: self.i.spec_times(rhs.r).spec_minus(self.r.spec_times(rhs.i)).spec_divide(
                rhs.norm2(),
            ),
        }
    }

    /// `self` less `rhs` times the real part of the quotient's projection.
    open spec fn spec_modulo(self, rhs: Self) -> Self {
        self.spec_minus(
            rhs.spec_times(
                Comp {
                    r: self.r.spec_times(rhs.r).spec_plus(self.i.spec_times(rhs.i)).spec_divide(
                        rhs.norm2(),
                    ),
                    i: R::spec_zero(),
                },
            ),
        )
    }

    open spec fn spec_regular(self) -> bool {
        self.r.spec_regular() && self.i.spec_regular()
    }

    /// Ordered by squared magnitude.
    open spec fn spec_lt(self, rhs: Self) -> bool {
        self.norm2().spec_lt(rhs.norm2())
    }

    fn negate(self) -> (z: Self) {
        Comp { r: self.r.negate(), i: self.i.negate() }
    }

    fn plus(self, rhs: Self) -> (z: Self) {
        Comp { r: self.r.plus(rhs.r), i: self.i.plus(rhs.i) }
    }

    fn minus(self, rhs: Self) -> (z: Self) {
        Comp { r: self.r.minus(rhs.r), i: self.i.minus(rhs.i) }
    }

    fn times(self, rhs: Self) -> (z: Self) {
        Comp {
            r: self.r.times(rhs.r).minus(self.i.times(rhs.i)),
            i: self.i.times(rhs.r).plus(self.r.times(rhs.i)),
        }
    }

    fn divide(self, rhs: Self) -> (z: Self) {
        let divisor = rhs.norm2_exec();
        Comp {
            r: self.r.times(rhs.r).plus(self.i.times(rhs.i)).divide(divisor),
            i: self.i.times(rhs.r).minus(self.r.times(rhs.i)).divide(divisor),
        }
    }

    fn modulo(self, rhs: Self) -> (z: Self) {
        let factor = Comp {
            r: self.r.times(rhs.r).plus(self.i.times(rhs.i)).divide(rhs.norm2_exec()),
            i: R::zero(),
        };
        self.minus(rhs.times(factor))
    }

    fn less_than(self, rhs: Self) -> (b: bool) {
        self.norm2_exec().less_than(rhs.norm2_exec())
    }

    proof fn lemma_identities(a: Self) {
        let z = R::spec_zero();
        R::lemma_identities(a.r);
        R::lemma_identities(a.i);
        R::lemma_identities(z);
        R::lemma_identities(a.norm2());
        R::lemma_identities(z.spec_divide(a.norm2()));
    }
}

impl<R: RealArithmetic> MagSquare for Comp<R> {
    open spec fn spec_mag2(self) -> Self {
        Comp { r: self.norm2(), i: R::spec_zero() }
    }

    fn mag2(self) -> (z: Self) {
        Comp { r: self.norm2_exec(), i: R::zero() }
    }
}

impl<R: RealArithmetic> Inverse for Comp<R> {
    open spec fn spec_inv(self) -> Self {
        Comp {
            r: self.r.spec_divide(self.norm2()),
            i: self.i.spec_negate().spec_divide(self.norm2()),
        }
    }

    fn inv(self) -> (z: Self) {
        let divisor = self.norm2_exec();
        Comp { r: self.r.divide(divisor), i: self.i.negate().divide(divisor) }
    }
}

impl<R: RealArithmetic + PowersOfTen> PowersOfTen for Comp<R> {
    open spec fn order_of_in_range(power: isize) -> bool {
        R::order_of_in_range(power)
    }

    open spec fn spec_order_of(power: isize) -> Self {
        Comp { r: R::spec_order_of(power), i: R::spec_zero() }
    }

    fn order_of(power: isize) -> (z: Self) {
        Comp { r: R::order_of(power), i: R::zero() }
    }
}

impl<R: UsefulReals> UsefulReals for Comp<R> {
    open spec fn spec_two() -> Self {
        Comp { r: R::spec_two(), i: R::spec_zero() }
    }

    open spec fn spec_e() -> Self {
        Comp { r: R::spec_e(), i: R::spec_zero() }
    }

    open spec fn spec_tau() -> Self {
        Comp { r: R::spec_tau(), i: R::spec_zero() }
    }

    open spec fn spec_pi() -> Self {
        Comp { r: R::spec_pi(), i: R::spec_zero() }
    }

    open spec fn spec_halfpi() -> Self {
        Comp { r: R::spec_halfpi(), i: R::spec_zero() }
    }

    open spec fn spec_qtrpi() -> Self {
        Comp { r: R::spec_qtrpi(), i: R::spec_zero() }
    }

    open spec fn spec_undef() -> Self {
        Comp { r: R::spec_undef(), i: R::spec_undef() }
    }

    fn two() -> (z: Self) {
        Comp { r: R::two(), i: R::zero() }
    }

    fn e() -> (z: Self) {
        Comp { r: R::e(), i: R::zero() }
    }

    fn tau() -> (z: Self) {
        Comp { r: R::tau(), i: R::zero() }
    }

    fn pi() -> (z: Self) {
        Comp { r: R::pi(), i: R::zero() }
    }

    fn halfpi() -> (z: Self) {
        Comp { r: R::halfpi(), i: R::zero() }
    }

    fn qtrpi() -> (z: Self) {
        Comp { r: R::qtrpi(), i: R::zero() }
    }

    fn undef() -> (z: Self) {
        Comp { r: R::undef(), i: R::undef() }
    }
}

impl<R: UsefulReals> PowersOfE for Comp<R> {

}

impl<R: UsefulReals> Magnitude for Comp<R> {

}

impl<R: Reals> Reals for Comp<R> {
    proof fn lemma_order_of_total(power: isize) {
        R::lemma_order_of_total(power);
    }
}

} // verus!
