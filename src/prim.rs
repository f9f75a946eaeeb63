//! The series engine, the range reducers, and the transcendental functions
//! composed from them.
use vstd::prelude::*;
use crate::rules::{
    Identity, RealArithmetic, MagSquare, Inverse, PowersOfTen, PowersOfE, UsefulReals, Magnitude,
    Reals, etothe_of, root_of,
};
use crate::fixed::Fixed;
use crate::cc::Comp;

verus! {

/// How many whole units the reduction of a real exponent may take off.
/// A value of up to `2^31` units, which covers every `Fixed`, needs no
/// more; a larger value of another scalar is left partly reduced.
pub const STRIP_LIMIT: usize = 2147483647;

/// How many times the reduction of a logarithm's magnitude may multiply by
/// `E`. A positive `Fixed` needs at most 23; a magnitude of zero never
/// reaches the band and stops here.
pub const GROWTH_LIMIT: usize = 2048;

/// The power of ten, relative to the squared norm, to which the complex
/// logarithm takes the magnitude.
pub const MAG_ERR_PWR: isize = -6;

/// The power of ten to which the inverse functions take square roots.
pub const INV_TRIG_ERR_PWR: isize = -4;

/// `ONE` plus `k` further `ONE`s: the divisor `k + 1` as the scalar counts it.
pub open spec fn counter<X: RealArithmetic>(k: nat) -> X
    decreases k,
{
    if k == 0 {
        X::spec_one()
    } else {
        counter::<X>((k - 1) as nat).spec_plus(X::spec_one())
    }
}

/// `ZERO` plus `k` `ONE`s: the integer `k` as the scalar counts it.
pub open spec fn tally<X: RealArithmetic>(k: nat) -> X
    decreases k,
{
    if k == 0 {
        X::spec_zero()
    } else {
        tally::<X>((k - 1) as nat).spec_plus(X::spec_one())
    }
}

/// The `k`-th term of the exponential series, `x^k / k!`, each term got from
/// the one before by one multiplication by `x / k`.
pub open spec fn exp_term<X: RealArithmetic>(x: X, k: nat) -> X
    decreases k,
{
    if k == 0 {
        X::spec_one()
    } else {
        exp_term(x, (k - 1) as nat).spec_times(x.spec_divide(counter::<X>((k - 1) as nat)))
    }
}

/// The sum of the first `k` terms of the exponential series.
pub open spec fn exp_series<X: RealArithmetic>(x: X, k: nat) -> X
    decreases k,
{
    if k == 0 {
        X::spec_zero()
    } else {
        exp_series(x, (k - 1) as nat).spec_plus(exp_term(x, (k - 1) as nat))
    }
}

/// `c^(k+1)` with alternating sign: the numerator of the `k`-th term of the
/// logarithm series about one, where `c = x - 1`.
pub open spec fn ln_term<X: RealArithmetic>(c: X, k: nat) -> X
    decreases k,
{
    if k == 0 {
        c
    } else {
        ln_term(c, (k - 1) as nat).spec_times(c.spec_negate())
    }
}

/// The sum of the first `k` terms of `Σ (-1)^n c^(n+1) / (n+1)`.
pub open spec fn ln_series<X: RealArithmetic>(c: X, k: nat) -> X
    decreases k,
{
    if k == 0 {
        X::spec_zero()
    } else {
        ln_series(c, (k - 1) as nat).spec_plus(
            ln_term(c, (k - 1) as nat).spec_divide(counter::<X>((k - 1) as nat)),
        )
    }
}

/// The divisor pair index of the `k`-th step of a sine or cosine series
/// that starts at `first`: `first`, `first + 2`, `first + 4`, ...
pub open spec fn trig_index<X: UsefulReals>(first: X, k: nat) -> X
    decreases k,
{
    if k == 0 {
        first
    } else {
        trig_index(first, (k - 1) as nat).spec_plus(X::spec_two())
    }
}

/// The ratio between successive terms: `-x² / (m (m + 1))`.
pub open spec fn trig_ratio<X: UsefulReals>(x: X, m: X) -> X {
    x.spec_negate().spec_times(x).spec_divide(m).spec_divide(m.spec_plus(X::spec_one()))
}

/// The `k`-th term of an alternating series in `x²` that starts at `start`.
pub open spec fn trig_term<X: UsefulReals>(x: X, start: X, first: X, k: nat) -> X
    decreases k,
{
    if k == 0 {
        start
    } else {
        trig_term(x, start, first, (k - 1) as nat).spec_times(
            trig_ratio(x, trig_index(first, (k - 1) as nat)),
        )
    }
}

/// The sum of the first `k` terms of that series.
pub open spec fn trig_series<X: UsefulReals>(x: X, start: X, first: X, k: nat) -> X
    decreases k,
{
    if k == 0 {
        X::spec_zero()
    } else {
        trig_series(x, start, first, (k - 1) as nat).spec_plus(
            trig_term(x, start, first, (k - 1) as nat),
        )
    }
}

/// The sine series: `x - x³/3! + x⁵/5! - ...`.
pub open spec fn sin_series<X: UsefulReals>(x: X, k: nat) -> X {
    trig_series(x, x, X::spec_two(), k)
}

/// The cosine series: `1 - x²/2! + x⁴/4! - ...`.
pub open spec fn cos_series<X: UsefulReals>(x: X, k: nat) -> X {
    trig_series(x, X::spec_one(), X::spec_one(), k)
}

/// The first `iterations` terms of the exponential series at `inp`.
pub fn exp_raw<X: Reals>(inp: X, iterations: usize) -> (r: X)
    ensures
        r == exp_series(inp, iterations as nat),
{
    let one = X::one();
    let mut total = X::zero();
    let mut running = X::one();
    let mut indx = X::one();
    let mut k: usize = 0;
    while k < iterations
        invariant
            k <= iterations,
            one == X::spec_one(),
            total == exp_series(inp, k as nat),
            running == exp_term(inp, k as nat),
            indx == counter::<X>(k as nat),
        decreases iterations - k,
    {
        total = total.plus(running);
        running = running.times(inp.divide(indx));
        indx = indx.plus(one);
        k = k + 1;
    }
    total
}

/// The first `iterations` terms of the logarithm series about one at `inp`.
pub fn ln_raw<X: Reals>(inp: X, iterations: usize) -> (r: X)
    ensures
        r == ln_series(inp.spec_minus(X::spec_one()), iterations as nat),
{
    let one = X::one();
    let centered = inp.minus(one);
    let mut total = X::zero();
    let mut running = centered;
    let mut indx = X::one();
    let mut k: usize = 0;
    while k < iterations
        invariant
            k <= iterations,
            one == X::spec_one(),
            centered == inp.spec_minus(X::spec_one()),
            total == ln_series(centered, k as nat),
            running == ln_term(centered, k as nat),
            indx == counter::<X>(k as nat),
        decreases iterations - k,
    {
        total = total.plus(running.divide(indx));
        running = running.times(centered.negate());
        indx = indx.plus(one);
        k = k + 1;
    }
    total
}

fn trig_raw<X: Reals>(inp: X, start: X, first: X, iterations: usize) -> (r: X)
    ensures
        r == trig_series(inp, start, first, iterations as nat),
{
    let one = X::one();
    let two = X::two();
    let mut total = X::zero();
    let mut running = start;
    let mut indx = first;
    let mut k: usize = 0;
    while k < iterations
        invariant
            k <= iterations,
            one == X::spec_one(),
            two == X::spec_two(),
            total == trig_series(inp, start, first, k as nat),
            running == trig_term(inp, start, first, k as nat),
            indx == trig_index(first, k as nat),
        decreases iterations - k,
    {
        total = total.plus(running);
        running = running.times(inp.negate().times(inp).divide(indx).divide(indx.plus(one)));
        indx = indx.plus(two);
        k = k + 1;
    }
    total
}

/// The first `iterations` terms of the sine series at `inp`.
pub fn sin_raw<X: Reals>(inp: X, iterations: usize) -> (r: X)
    ensures
        r == sin_series(inp, iterations as nat),
{
    trig_raw(inp, inp, X::two(), iterations)
}

/// The first `iterations` terms of the cosine series at `inp`.
pub fn cos_raw<X: Reals>(inp: X, iterations: usize) -> (r: X)
    ensures
        r == cos_series(inp, iterations as nat),
{
    trig_raw(inp, X::one(), X::one(), iterations)
}

/// `x` less `k` `ONE`s.
pub open spec fn unit_strip<X: RealArithmetic>(x: X, k: nat) -> X
    decreases k,
{
    if k == 0 {
        x
    } else {
        unit_strip(x, (k - 1) as nat).spec_minus(X::spec_one())
    }
}

/// The number of `ONE`s taken from `x`, counting on from `k`, before what is
/// left is no longer above `ONE`, or the limit is reached.
pub open spec fn strip_count<X: RealArithmetic>(x: X, k: nat) -> nat
    decreases STRIP_LIMIT - k,
{
    if k >= STRIP_LIMIT || !X::spec_one().spec_lt(unit_strip(x, k)) {
        k
    } else {
        strip_count(x, k + 1)
    }
}

/// The reduction of a real exponent: its magnitude with whole units taken
/// off while above one, how many were taken, and whether it was negative.
pub open spec fn exp_real_fixed<X: RealArithmetic>(x: X) -> (X, nat, bool) {
    let neg = x.spec_lt(X::spec_zero());
    let start = if neg {
        x.spec_negate()
    } else {
        x
    };
    let k = strip_count(start, 0);
    (unit_strip(start, k), k, neg)
}

/// `x` times `E`, `k` times over.
pub open spec fn e_grow<X: UsefulReals>(x: X, k: nat) -> X
    decreases k,
{
    if k == 0 {
        x
    } else {
        e_grow(x, (k - 1) as nat).spec_times(X::spec_e())
    }
}

/// The band floor `1 - 1/E` of the logarithm series.
pub open spec fn ln_floor<X: UsefulReals + Inverse>() -> X {
    X::spec_one().spec_minus(X::spec_e().spec_inv())
}

/// The number of multiplications by `E`, counting on from `k`, before `x`
/// reaches the band floor, or the limit is reached.
pub open spec fn grow_count<X: UsefulReals + Inverse>(x: X, k: nat) -> nat
    decreases GROWTH_LIMIT - k,
{
    if k >= GROWTH_LIMIT || !e_grow(x, k).spec_lt(ln_floor::<X>()) {
        k
    } else {
        grow_count(x, k + 1)
    }
}

proof fn lemma_grow_count<X: UsefulReals + Inverse>(x: X, i: nat)
    requires
        i <= GROWTH_LIMIT,
    ensures
        i <= grow_count(x, i) <= GROWTH_LIMIT,
        grow_count(x, i) < GROWTH_LIMIT ==> !e_grow(x, grow_count(x, i)).spec_lt(
            ln_floor::<X>(),
        ),
    decreases GROWTH_LIMIT - i,
{
    if i < GROWTH_LIMIT && e_grow(x, i).spec_lt(ln_floor::<X>()) {
        lemma_grow_count(x, i + 1);
    }
}

/// The reduction of a logarithm's magnitude: inverted when above one, then
/// raised by powers of `E` into the band; the count as a scalar, and whether
/// it was inverted.
pub open spec fn ln_mag_fixed<X: UsefulReals + Inverse + MagSquare>(mag: X) -> (X, X, bool) {
    let neg = X::spec_one().spec_lt(mag.spec_mag2());
    let start = if neg {
        mag.spec_inv()
    } else {
        mag
    };
    let k = grow_count(start, 0);
    (e_grow(start, k), tally::<X>(k), neg)
}

/// `a <= b`, read as "`b` is not below `a`".
pub open spec fn spec_le<X: RealArithmetic>(a: X, b: X) -> bool {
    !b.spec_lt(a)
}

/// An angle brought into `(-PI, PI]` modulo `TAU`.
pub open spec fn half_turn_rep<X: UsefulReals>(imag: X) -> X {
    let m = imag.spec_modulo(X::spec_tau());
    if X::spec_pi().spec_lt(m) {
        m.spec_minus(X::spec_tau())
    } else if spec_le(m, X::spec_pi().spec_negate()) {
        m.spec_plus(X::spec_tau())
    } else {
        m
    }
}

/// An angle of `(-PI, PI]` folded into `[-HALFPI, HALFPI]`; the flag tells
/// that it was folded, which negates the cosine.
pub open spec fn fold_angle<X: UsefulReals>(w: X) -> (X, bool) {
    if X::spec_halfpi().spec_lt(w) {
        (X::spec_pi().spec_minus(w), true)
    } else if w.spec_lt(X::spec_halfpi().spec_negate()) {
        (X::spec_pi().spec_negate().spec_minus(w), true)
    } else {
        (w, false)
    }
}

/// The reduction of an angle: into `(-PI, PI]` modulo `TAU`, then folded
/// into `[-HALFPI, HALFPI]`.
pub open spec fn exp_imag_fixed<X: UsefulReals>(imag: X) -> (X, bool) {
    fold_angle(half_turn_rep(imag))
}

/// Reduces a real exponent for the series: the reduced value, the whole
/// units taken off, and whether the exponent was negative.
pub fn exp_real_fix<X: Reals>(x: X) -> (r: (X, isize, bool))
    ensures
        r.0 == exp_real_fixed(x).0,
        r.1 as int == exp_real_fixed(x).1,
        r.2 == exp_real_fixed(x).2,
        0 <= r.1 <= STRIP_LIMIT,
        r.2 == x.spec_lt(X::spec_zero()),
        r.1 < STRIP_LIMIT ==> !X::spec_one().spec_lt(r.0),
{
    let one = X::one();
    let mut neg = false;
    let mut out = x;
    if x.less_than(X::zero()) {
        out = x.negate();
        neg = true;
    }
    let ghost start = out;
    let mut extra: usize = 0;
    while extra < STRIP_LIMIT && one.less_than(out)
        invariant
            extra <= STRIP_LIMIT,
            one == X::spec_one(),
            out == unit_strip(start, extra as nat),
            strip_count(start, 0) == strip_count(start, extra as nat),
        decreases STRIP_LIMIT - extra,
    {
        out = out.minus(one);
        extra = extra + 1;
    }
    (out, extra as isize, neg)
}

/// Reduces an angle for the series: the folded angle, and whether the real
/// part of the result is to be negated.
pub fn exp_imag_fix<X: Reals>(imag: X) -> (r: (X, bool))
    ensures
        r == exp_imag_fixed(imag),
{
    let tau = X::tau();
    let pi = X::pi();
    let halfpi = X::halfpi();
    let mut out = imag.modulo(tau);
    let mut real_flip = false;
    if pi.less_than(out) {
        out = out.minus(tau);
    } else if !pi.negate().less_than(out) {
        out = out.plus(tau);
    }
    if halfpi.less_than(out) {
        out = pi.minus(out);
        real_flip = true;
    } else if out.less_than(halfpi.negate()) {
        out = pi.negate().minus(out);
        real_flip = true;
    }
    (out, real_flip)
}

/// Reduces a logarithm's magnitude for the series: the reduced value, the
/// powers of `E` taken out, and whether it was inverted.
pub fn ln_mag_fix<X: Reals>(mag: X) -> (r: (X, X, bool))
    ensures
        r == ln_mag_fixed(mag),
        r.2 == X::spec_one().spec_lt(mag.spec_mag2()),
        !r.0.spec_lt(ln_floor::<X>()) || r.1 == tally::<X>(GROWTH_LIMIT as nat),
{
    let one = X::one();
    let e = X::e();
    let floor = one.minus(e.inv());
    let mut out = mag;
    let mut extra = X::zero();
    let mut neg = false;
    if one.less_than(mag.mag2()) {
        out = mag.inv();
        neg = true;
    }
    let ghost start = out;
    let mut k: usize = 0;
    while k < GROWTH_LIMIT && out.less_than(floor)
        invariant
            k <= GROWTH_LIMIT,
            one == X::spec_one(),
            e == X::spec_e(),
            floor == ln_floor::<X>(),
            out == e_grow(start, k as nat),
            extra == tally::<X>(k as nat),
            grow_count(start, 0) == grow_count(start, k as nat),
        decreases GROWTH_LIMIT - k,
    {
        out = out.times(e);
        extra = extra.plus(one);
        k = k + 1;
    }
    proof {
        lemma_grow_count(start, k as nat);
    }
    (out, extra, neg)
}

/// The octant reduction of a unit vector: onto the axis of larger squared
/// component, and the angle (`0`, `PI` or `±HALFPI`) that was turned off.
pub open spec fn ln_angle_fixed<X: UsefulReals + MagSquare>(unit: Comp<X>) -> (Comp<X>, X) {
    if unit.i.spec_mag2().spec_lt(unit.r.spec_mag2()) {
        if unit.r.spec_lt(X::spec_zero()) {
            (Comp { r: unit.r.spec_negate(), i: unit.i.spec_negate() }, X::spec_pi())
        } else {
            (unit, X::spec_zero())
        }
    } else {
        if unit.i.spec_lt(X::spec_zero()) {
            (Comp { r: unit.i.spec_negate(), i: unit.r }, X::spec_halfpi().spec_negate())
        } else {
            (Comp { r: unit.i, i: unit.r.spec_negate() }, X::spec_halfpi())
        }
    }
}

/// Turns a unit vector onto its nearer axis; see `ln_angle_fixed`.
pub fn ln_angle_fix<X: Reals>(unit: Comp<X>) -> (r: (Comp<X>, X))
    ensures
        r == ln_angle_fixed(unit),
{
    if unit.i.mag2().less_than(unit.r.mag2()) {
        if unit.r.less_than(X::zero()) {
            (Comp { r: unit.r.negate(), i: unit.i.negate() }, X::pi())
        } else {
            (unit, X::zero())
        }
    } else {
        if unit.i.less_than(X::zero()) {
            (Comp { r: unit.i.negate(), i: unit.r }, X::halfpi().negate())
        } else {
            (Comp { r: unit.i, i: unit.r.negate() }, X::halfpi())
        }
    }
}

/// The exponential of a real scalar: the series at the reduced exponent,
/// times `E` to the units taken off, inverted for a negative exponent.
pub open spec fn exp_of_real<X: Reals>(x: X, iterations: nat) -> X {
    let fixed = exp_real_fixed(x);
    let out = exp_series(fixed.0, iterations).spec_times(etothe_of::<X>(fixed.1 as int));
    if fixed.2 {
        out.spec_inv()
    } else {
        out
    }
}

/// The natural logarithm of a real scalar: the sentinel unless it is
/// positive; else the series at the reduced magnitude, corrected by the
/// powers of `E` taken out, and negated back when it was inverted.
pub open spec fn lnn_of_real<X: Reals>(x: X, iterations: nat) -> X {
    if !X::spec_zero().spec_lt(x) {
        X::spec_undef()
    } else {
        let fixed = ln_mag_fixed(x);
        if fixed.2 {
            ln_series(fixed.0.spec_inv().spec_minus(X::spec_one()), iterations).spec_plus(fixed.1)
        } else {
            ln_series(fixed.0.spec_minus(X::spec_one()), iterations).spec_minus(fixed.1)
        }
    }
}

/// `exp` on a real scalar; see `exp_of_real`.
pub fn real_exp<X: Reals>(x: X, iterations: usize) -> (r: X)
    ensures
        r == exp_of_real(x, iterations as nat),
{
    let (fixed, extra, neg) = exp_real_fix(x);
    let out = exp_raw(fixed, iterations).times(X::etothe(extra));
    if neg {
        out.inv()
    } else {
        out
    }
}

/// `lnn` on a real scalar; see `lnn_of_real`.
pub fn real_lnn<X: Reals>(x: X, iterations: usize) -> (r: X)
    ensures
        r == lnn_of_real(x, iterations as nat),
{
    if !X::zero().less_than(x) {
        return X::undef();
    }
    let (mag_fix, extra_real, invert) = ln_mag_fix(x);
    if invert {
        ln_raw(mag_fix.inv(), iterations).plus(extra_real)
    } else {
        ln_raw(mag_fix, iterations).minus(extra_real)
    }
}

/// The exponential, the logarithm, and powers.
pub trait Exponential: Reals {
    spec fn spec_exp(self, iterations: nat) -> Self;

    spec fn spec_lnn(self, iterations: nat) -> Self;

    /// `e^self`, with `iterations` terms of the series.
    fn exp(self, iterations: usize) -> (r: Self)
        ensures
            r == self.spec_exp(iterations as nat),
    ;

    /// The natural logarithm, with `iterations` terms of the series.
    fn lnn(self, iterations: usize) -> (r: Self)
        ensures
            r == self.spec_lnn(iterations as nat),
    ;

    /// `self^rhs`, as `exp(lnn(self) · rhs)`.
    fn power(&self, rhs: Self, iterations: usize) -> (r: Self)
        ensures
            r == self.spec_lnn(iterations as nat).spec_times(rhs).spec_exp(iterations as nat),
    {
        self.lnn(iterations).times(rhs).exp(iterations)
    }
}

impl Exponential for Fixed {
    open spec fn spec_exp(self, iterations: nat) -> Fixed {
        exp_of_real(self, iterations)
    }

    open spec fn spec_lnn(self, iterations: nat) -> Fixed {
        lnn_of_real(self, iterations)
    }

    fn exp(self, iterations: usize) -> (r: Fixed) {
        real_exp(self, iterations)
    }

    fn lnn(self, iterations: usize) -> (r: Fixed) {
        real_lnn(self, iterations)
    }
}

/// The complex exponential: the real part reduced by whole units, the
/// imaginary part as an angle, and both reductions undone on the result.
pub open spec fn exp_of_comp<R: Reals>(z: Comp<R>, iterations: nat) -> Comp<R> {
    let rf = exp_real_fixed(z.r);
    let imf = exp_imag_fixed(z.i);
    let out = exp_series(Comp { r: rf.0, i: imf.0 }, iterations).spec_times(
        etothe_of::<Comp<R>>(rf.1 as int),
    );
    let out = if rf.2 {
        Comp { r: out.spec_inv().r, i: out.spec_inv().i.spec_negate() }
    } else {
        out
    };
    if imf.1 {
        Comp { r: out.r.spec_negate(), i: out.i }
    } else {
        out
    }
}

/// The magnitude that the complex logarithm splits off: Newton's square
/// root of the squared norm, to a millionth of it.
pub open spec fn comp_magnitude<R: Reals>(z: Comp<R>) -> Comp<R> {
    root_of(z.spec_mag2(), Comp::<R>::spec_order_of(MAG_ERR_PWR).spec_times(z.spec_mag2()))
}

/// The complex logarithm: the magnitude reduced as a real, the direction
/// turned onto its nearer axis, one series over both, and the turned angle
/// added back to the imaginary part.
pub open spec fn lnn_of_comp<R: Reals>(z: Comp<R>, iterations: nat) -> Comp<R> {
    let mag = comp_magnitude(z);
    let unit = z.spec_divide(mag);
    let mf = ln_mag_fixed(mag.r);
    let mag_fix = Comp { r: mf.0, i: R::spec_zero() };
    let af = ln_angle_fixed(unit);
    if mf.2 {
        ln_series(af.0.spec_divide(mag_fix).spec_minus(Comp::<R>::spec_one()), iterations).spec_plus(
            Comp { r: mf.1, i: af.1 },
        )
    } else {
        ln_series(af.0.spec_times(mag_fix).spec_minus(Comp::<R>::spec_one()), iterations).spec_plus(
            Comp { r: mf.1.spec_negate(), i: af.1 },
        )
    }
}

impl<R: Reals> Exponential for Comp<R> {
    open spec fn spec_exp(self, iterations: nat) -> Comp<R> {
        exp_of_comp(self, iterations)
    }

    open spec fn spec_lnn(self, iterations: nat) -> Comp<R> {
        lnn_of_comp(self, iterations)
    }

    fn exp(self, iterations: usize) -> (z: Comp<R>) {
        let (r_fixed, extra, neg) = exp_real_fix(self.r);
        let (i_fixed, real_flip) = exp_imag_fix(self.i);
        let mut out = exp_raw(Comp { r: r_fixed, i: i_fixed }, iterations).times(
            Comp::<R>::etothe(extra),
        );
        if neg {
            out = out.inv();
            out.i = out.i.negate();
        }
        if real_flip {
            out.r = out.r.negate();
        }
        out
    }

    fn lnn(self, iterations: usize) -> (z: Comp<R>) {
        proof {
            R::lemma_order_of_total(MAG_ERR_PWR);
        }
        let mag = self.mag1(Comp::<R>::order_of(MAG_ERR_PWR).times(self.mag2()));
        let unit = self.divide(mag);
        let (mag_fix, extra_real, invert) = ln_mag_fix(mag.r);
        let mag_fix = Comp::nre(mag_fix);
        let (ang_fix, extra_imag) = ln_angle_fix(unit);
        if invert {
            ln_raw(ang_fix.divide(mag_fix), iterations).plus(Comp::new(extra_real, extra_imag))
        } else {
            ln_raw(ang_fix.times(mag_fix), iterations).plus(
                Comp::new(extra_real.negate(), extra_imag),
            )
        }
    }
}

/// The sine of a real scalar: the sine series at the folded angle.
pub open spec fn sin_of_real<X: Reals>(x: X, iterations: nat) -> X {
    sin_series(exp_imag_fixed(x).0, iterations)
}

/// The cosine of a real scalar: the cosine series at the folded angle,
/// negated when it was folded.
pub open spec fn cos_of_real<X: Reals>(x: X, iterations: nat) -> X {
    let fixed = exp_imag_fixed(x);
    if fixed.1 {
        cos_series(fixed.0, iterations).spec_negate()
    } else {
        cos_series(fixed.0, iterations)
    }
}

/// The tangent of a real scalar: sine over cosine at the folded angle, the
/// cosine negated when it was folded.
pub open spec fn tan_of_real<X: Reals>(x: X, iterations: nat) -> X {
    let fixed = exp_imag_fixed(x);
    let s = sin_series(fixed.0, iterations);
    let c = cos_series(fixed.0, iterations);
    if fixed.1 {
        s.spec_divide(c.spec_negate())
    } else {
        s.spec_divide(c)
    }
}

/// The cotangent of a real scalar: cosine over sine at the folded angle,
/// negated when it was folded.
pub open spec fn cot_of_real<X: Reals>(x: X, iterations: nat) -> X {
    let fixed = exp_imag_fixed(x);
    let s = sin_series(fixed.0, iterations);
    let c = cos_series(fixed.0, iterations);
    if fixed.1 {
        c.spec_negate().spec_divide(s)
    } else {
        c.spec_divide(s)
    }
}

/// `xsin` on a real scalar; see `sin_of_real`.
pub fn real_xsin<X: Reals>(x: X, iterations: usize) -> (r: X)
    ensures
        r == sin_of_real(x, iterations as nat),
{
    let fixed = exp_imag_fix(x).0;
    sin_raw(fixed, iterations)
}

/// `xcos` on a real scalar; see `cos_of_real`.
pub fn real_xcos<X: Reals>(x: X, iterations: usize) -> (r: X)
    ensures
        r == cos_of_real(x, iterations as nat),
{
    let (fixed, neg) = exp_imag_fix(x);
    if neg {
        cos_raw(fixed, iterations).negate()
    } else {
        cos_raw(fixed, iterations)
    }
}

/// `xtan` on a real scalar; see `tan_of_real`.
pub fn real_xtan<X: Reals>(x: X, iterations: usize) -> (r: X)
    ensures
        r == tan_of_real(x, iterations as nat),
{
    let (fixed, neg) = exp_imag_fix(x);
    if neg {
        sin_raw(fixed, iterations).divide(cos_raw(fixed, iterations).negate())
    } else {
        sin_raw(fixed, iterations).divide(cos_raw(fixed, iterations))
    }
}

/// `xcot` on a real scalar; see `cot_of_real`.
pub fn real_xcot<X: Reals>(x: X, iterations: usize) -> (r: X)
    ensures
        r == cot_of_real(x, iterations as nat),
{
    let (fixed, neg) = exp_imag_fix(x);
    if neg {
        cos_raw(fixed, iterations).negate().divide(sin_raw(fixed, iterations))
    } else {
        cos_raw(fixed, iterations).divide(sin_raw(fixed, iterations))
    }
}

/// The circular functions.
pub trait CircularTrig: Exponential {
    spec fn spec_xsin(self, iterations: nat) -> Self;

    spec fn spec_xcos(self, iterations: nat) -> Self;

    spec fn spec_xtan(self, iterations: nat) -> Self;

    spec fn spec_xcot(self, iterations: nat) -> Self;

    /// The sine, with `iterations` terms of the series.
    fn xsin(self, iterations: usize) -> (r: Self)
        ensures
            r == self.spec_xsin(iterations as nat),
    ;

    /// The cosine, with `iterations` terms of the series.
    fn xcos(self, iterations: usize) -> (r: Self)
        ensures
            r == self.spec_xcos(iterations as nat),
    ;

    /// The tangent, with `iterations` terms of the series.
    fn xtan(self, iterations: usize) -> (r: Self)
        ensures
            r == self.spec_xtan(iterations as nat),
    ;

    /// The cotangent, with `iterations` terms of the series.
    fn xcot(self, iterations: usize) -> (r: Self)
        ensures
            r == self.spec_xcot(iterations as nat),
    ;

    /// The cosecant, `1 / sin`.
    fn xcsc(self, iterations: usize) -> (r: Self)
        ensures
            r == self.spec_xsin(iterations as nat).spec_inv(),
    {
        self.xsin(iterations).inv()
    }

    /// The secant, `1 / cos`.
    fn xsec(self, iterations: usize) -> (r: Self)
        ensures
            r == self.spec_xcos(iterations as nat).spec_inv(),
    {
        self.xcos(iterations).inv()
    }
}

/// `(s - 1/s) / 2`: the hyperbolic sine from `s = e^x`.
pub open spec fn sinh_from<X: Reals>(s: X) -> X {
    s.spec_minus(s.spec_inv()).spec_divide(X::spec_two())
}

/// `(s + 1/s) / 2`: the hyperbolic cosine from `s = e^x`.
pub open spec fn cosh_from<X: Reals>(s: X) -> X {
    s.spec_plus(s.spec_inv()).spec_divide(X::spec_two())
}

/// `(s - 1/s) / (s + 1/s)`: the hyperbolic tangent from `s = e^x`.
pub open spec fn tanh_from<X: Reals>(s: X) -> X {
    s.spec_minus(s.spec_inv()).spec_divide(s.spec_plus(s.spec_inv()))
}

/// `(s + 1/s) / (s - 1/s)`: the hyperbolic cotangent from `s = e^x`.
pub open spec fn coth_from<X: Reals>(s: X) -> X {
    s.spec_plus(s.spec_inv()).spec_divide(s.spec_minus(s.spec_inv()))
}

/// The hyperbolic functions, from the exponential.
pub trait HyperbolicTrig: Exponential {
    /// The hyperbolic sine; see `sinh_from`.
    fn xsinh(self, iterations: usize) -> (r: Self)
        ensures
            r == sinh_from(self.spec_exp(iterations as nat)),
    {
        let series = self.exp(iterations);
        series.minus(series.inv()).divide(Self::two())
    }

    /// The hyperbolic cosine; see `cosh_from`.
    fn xcosh(self, iterations: usize) -> (r: Self)
        ensures
            r == cosh_from(self.spec_exp(iterations as nat)),
    {
        let series = self.exp(iterations);
        series.plus(series.inv()).divide(Self::two())
    }

    /// The hyperbolic cosecant, `1 / sinh`.
    fn xcsch(self, iterations: usize) -> (r: Self)
        ensures
            r == sinh_from(self.spec_exp(iterations as nat)).spec_inv(),
    {
        self.xsinh(iterations).inv()
    }

    /// The hyperbolic secant, `1 / cosh`.
    fn xsech(self, iterations: usize) -> (r: Self)
        ensures
            r == cosh_from(self.spec_exp(iterations as nat)).spec_inv(),
    {
        self.xcosh(iterations).inv()
    }

    /// The hyperbolic tangent; see `tanh_from`.
    fn xtanh(self, iterations: usize) -> (r: Self)
        ensures
            r == tanh_from(self.spec_exp(iterations as nat)),
    {
        let series = self.exp(iterations);
        series.minus(series.inv()).divide(series.plus(series.inv()))
    }

    /// The hyperbolic cotangent; see `coth_from`.
    fn xcoth(self, iterations: usize) -> (r: Self)
        ensures
            r == coth_from(self.spec_exp(iterations as nat)),
    {
        let series = self.exp(iterations);
        series.plus(series.inv()).divide(series.minus(series.inv()))
    }
}

/// `sqrt(1 + x²)`, by Newton's iteration to `10^INV_TRIG_ERR_PWR`.
pub open spec fn root_plus_of<X: Reals>(x: X) -> X {
    root_of(X::spec_one().spec_plus(x.spec_times(x)), X::spec_order_of(INV_TRIG_ERR_PWR))
}

/// `sqrt(1 - x²)`, by Newton's iteration to `10^INV_TRIG_ERR_PWR`.
pub open spec fn root_minus_of<X: Reals>(x: X) -> X {
    root_of(X::spec_one().spec_minus(x.spec_times(x)), X::spec_order_of(INV_TRIG_ERR_PWR))
}

/// `sqrt(x² - 1)`, by Newton's iteration to `10^INV_TRIG_ERR_PWR`.
pub open spec fn root_excess_of<X: Reals>(x: X) -> X {
    root_of(x.spec_times(x).spec_minus(X::spec_one()), X::spec_order_of(INV_TRIG_ERR_PWR))
}

/// `sqrt(inp² - 1)`; see `root_excess_of`.
pub fn root_excess<X: Reals>(inp: X) -> (r: X)
    ensures
        r == root_excess_of(inp),
{
    proof {
        X::lemma_order_of_total(INV_TRIG_ERR_PWR);
    }
    inp.times(inp).minus(X::one()).rrt(X::order_of(INV_TRIG_ERR_PWR))
}

/// `sqrt(1 + inp²)`; see `root_plus_of`.
pub fn root_plus<X: Reals>(inp: X) -> (r: X)
    ensures
        r == root_plus_of(inp),
{
    proof {
        X::lemma_order_of_total(INV_TRIG_ERR_PWR);
    }
    X::one().plus(inp.times(inp)).rrt(X::order_of(INV_TRIG_ERR_PWR))
}

/// `sqrt(1 - inp²)`; see `root_minus_of`.
pub fn root_minus<X: Reals>(inp: X) -> (r: X)
    ensures
        r == root_minus_of(inp),
{
    proof {
        X::lemma_order_of_total(INV_TRIG_ERR_PWR);
    }
    X::one().minus(inp.times(inp)).rrt(X::order_of(INV_TRIG_ERR_PWR))
}

/// `v`, negated when `x` is below zero.
pub open spec fn with_sign_of<X: RealArithmetic>(x: X, v: X) -> X {
    if x.spec_lt(X::spec_zero()) {
        v.spec_negate()
    } else {
        v
    }
}

/// The inverse circular functions, all through `xacos`.
pub trait CircularTrigInv: Exponential {
    spec fn spec_xacos(self, iterations: nat) -> Self;

    /// The arc-cosine.
    fn xacos(self, iterations: usize) -> (r: Self)
        ensures
            r == self.spec_xacos(iterations as nat),
    ;

    /// The arc-sine, `HALFPI - acos(x)`.
    fn xasin(self, iterations: usize) -> (r: Self)
        ensures
            r == Self::spec_halfpi().spec_minus(self.spec_xacos(iterations as nat)),
    {
        Self::halfpi().minus(self.xacos(iterations))
    }

    /// The arc-cosecant, `HALFPI - acos(1/x)`.
    fn xacsc(self, iterations: usize) -> (r: Self)
        ensures
            r == Self::spec_halfpi().spec_minus(self.spec_inv().spec_xacos(iterations as nat)),
    {
        Self::halfpi().minus(self.inv().xacos(iterations))
    }

    /// The arc-secant, `acos(1/x)`.
    fn xasec(self, iterations: usize) -> (r: Self)
        ensures
            r == self.spec_inv().spec_xacos(iterations as nat),
    {
        self.inv().xacos(iterations)
    }

    /// The arc-tangent: `acos(1 / sqrt(1 + x²))`, which is `atan |x|`,
    /// with the sign of `x`.
    fn xatan(self, iterations: usize) -> (r: Self)
        ensures
            r == with_sign_of(self, root_plus_of(self).spec_inv().spec_xacos(iterations as nat)),
    {
        let a = root_plus(self).inv().xacos(iterations);
        if self.less_than(Self::zero()) {
            a.negate()
        } else {
            a
        }
    }

    /// The arc-cotangent, `atan(1/x)`.
    fn xacot(self, iterations: usize) -> (r: Self)
        ensures
            r == with_sign_of(
                self.spec_inv(),
                root_plus_of(self.spec_inv()).spec_inv().spec_xacos(iterations as nat),
            ),
    {
        self.inv().xatan(iterations)
    }
}

/// The inverse hyperbolic functions, through `xacosh` and the logarithm.
pub trait HyperbolicTrigInv: Exponential {
    spec fn spec_xacosh(self, iterations: nat) -> Self;

    /// The inverse hyperbolic cosine.
    fn xacosh(self, iterations: usize) -> (r: Self)
        ensures
            r == self.spec_xacosh(iterations as nat),
    ;

    /// The inverse hyperbolic sine, `ln(x + sqrt(1 + x²))`.
    fn xasinh(self, iterations: usize) -> (r: Self)
        ensures
            r == self.spec_plus(root_plus_of(self)).spec_lnn(iterations as nat),
    {
        self.plus(root_plus(self)).lnn(iterations)
    }

    /// The inverse hyperbolic cosecant, `asinh(1/x)`.
    fn xacsch(self, iterations: usize) -> (r: Self)
        ensures
            r == self.spec_inv().spec_plus(root_plus_of(self.spec_inv())).spec_lnn(
                iterations as nat,
            ),
    {
        self.inv().xasinh(iterations)
    }

    /// The inverse hyperbolic secant, `acosh(1/x)`.
    fn xasech(self, iterations: usize) -> (r: Self)
        ensures
            r == self.spec_inv().spec_xacosh(iterations as nat),
    {
        self.inv().xacosh(iterations)
    }

    /// The inverse hyperbolic tangent: `acosh(1 / sqrt(1 - x²))`, which is
    /// `atanh |x|`, with the sign of `x`.
    fn xatanh(self, iterations: usize) -> (r: Self)
        ensures
            r == with_sign_of(self, root_minus_of(self).spec_inv().spec_xacosh(iterations as nat)),
    {
        let a = root_minus(self).inv().xacosh(iterations);
        if self.less_than(Self::zero()) {
            a.negate()
        } else {
            a
        }
    }

    /// The inverse hyperbolic cotangent, `atanh(1/x)`.
    fn xacoth(self, iterations: usize) -> (r: Self)
        ensures
            r == with_sign_of(
                self.spec_inv(),
                root_minus_of(self.spec_inv()).spec_inv().spec_xacosh(iterations as nat),
            ),
    {
        self.inv().xatanh(iterations)
    }
}

/// The arc-cosine of a real scalar: the sentinel outside `[-1, 1]`; else
/// the imaginary part of the logarithm of `x + i·sqrt(1 - x²)`.
pub open spec fn acos_of_real<X: Reals>(x: X, iterations: nat) -> X {
    if X::spec_one().spec_lt(x) || x.spec_lt(X::spec_one().spec_negate()) {
        X::spec_undef()
    } else {
        lnn_of_comp(Comp { r: x, i: root_minus_of(x) }, iterations).i
    }
}

/// The inverse hyperbolic cosine of a real scalar: the sentinel below one;
/// else the logarithm of `x + sqrt(x² - 1)`.
pub open spec fn acosh_of_real<X: Exponential>(x: X, iterations: nat) -> X {
    if x.spec_lt(X::spec_one()) {
        X::spec_undef()
    } else {
        x.spec_plus(root_excess_of(x)).spec_lnn(iterations)
    }
}

/// `xacos` on a real scalar; see `acos_of_real`.
pub fn real_xacos<X: Reals>(x: X, iterations: usize) -> (r: X)
    ensures
        r == acos_of_real(x, iterations as nat),
{
    let one = X::one();
    if one.less_than(x) || x.less_than(one.negate()) {
        return X::undef();
    }
    let unit_circle = Comp { r: x, i: root_minus(x) };
    unit_circle.lnn(iterations).i
}

/// `xacosh` on a real scalar; see `acosh_of_real`.
pub fn real_xacosh<X: Exponential>(x: X, iterations: usize) -> (r: X)
    ensures
        r == acosh_of_real(x, iterations as nat),
{
    if x.less_than(X::one()) {
        return X::undef();
    }
    x.plus(root_excess(x)).lnn(iterations)
}

impl CircularTrig for Fixed {
    open spec fn spec_xsin(self, iterations: nat) -> Fixed {
        sin_of_real(self, iterations)
    }

    open spec fn spec_xcos(self, iterations: nat) -> Fixed {
        cos_of_real(self, iterations)
    }

    open spec fn spec_xtan(self, iterations: nat) -> Fixed {
        tan_of_real(self, iterations)
    }

    open spec fn spec_xcot(self, iterations: nat) -> Fixed {
        cot_of_real(self, iterations)
    }

    fn xsin(self, iterations: usize) -> (r: Fixed) {
        real_xsin(self, iterations)
    }

    fn xcos(self, iterations: usize) -> (r: Fixed) {
        real_xcos(self, iterations)
    }

    fn xtan(self, iterations: usize) -> (r: Fixed) {
        real_xtan(self, iterations)
    }

    fn xcot(self, iterations: usize) -> (r: Fixed) {
        real_xcot(self, iterations)
    }
}

impl HyperbolicTrig for Fixed {

}

impl CircularTrigInv for Fixed {
    open spec fn spec_xacos(self, iterations: nat) -> Fixed {
        acos_of_real(self, iterations)
    }

    fn xacos(self, iterations: usize) -> (r: Fixed) {
        real_xacos(self, iterations)
    }
}

impl HyperbolicTrigInv for Fixed {
    open spec fn spec_xacosh(self, iterations: nat) -> Fixed {
        acosh_of_real(self, iterations)
    }

    fn xacosh(self, iterations: usize) -> (r: Fixed) {
        real_xacosh(self, iterations)
    }
}

impl<R: Reals> Comp<R> {
    /// `e^(i·self)`: the exponential after a quarter turn.
    pub fn ixp(self, iterations: usize) -> (z: Self)
        ensures
            z == exp_of_comp(self.spec_ccw(), iterations as nat),
    {
        self.ccw().exp(iterations)
    }
}

impl<R: Reals> CircularTrig for Comp<R> {
    /// `-i (s - 1/s) / 2` with `s = e^(iz)`.
    open spec fn spec_xsin(self, iterations: nat) -> Comp<R> {
        sinh_from(exp_of_comp(self.spec_ccw(), iterations)).spec_cw()
    }

    /// `(s + 1/s) / 2` with `s = e^(iz)`.
    open spec fn spec_xcos(self, iterations: nat) -> Comp<R> {
        cosh_from(exp_of_comp(self.spec_ccw(), iterations))
    }

    /// `(s - 1/s) / (i (s + 1/s))` with `s = e^(iz)`.
    open spec fn spec_xtan(self, iterations: nat) -> Comp<R> {
        let s = exp_of_comp(self.spec_ccw(), iterations);
        s.spec_minus(s.spec_inv()).spec_divide(s.spec_plus(s.spec_inv()).spec_ccw())
    }

    /// `i (s + 1/s) / (s - 1/s)` with `s = e^(iz)`.
    open spec fn spec_xcot(self, iterations: nat) -> Comp<R> {
        coth_from(exp_of_comp(self.spec_ccw(), iterations)).spec_ccw()
    }

    fn xsin(self, iterations: usize) -> (z: Comp<R>) {
        let series = self.ixp(iterations);
        series.minus(series.inv()).divide(Self::two()).cw()
    }

    fn xcos(self, iterations: usize) -> (z: Comp<R>) {
        let series = self.ixp(iterations);
        series.plus(series.inv()).divide(Self::two())
    }

    fn xtan(self, iterations: usize) -> (z: Comp<R>) {
        let series = self.ixp(iterations);
        series.minus(series.inv()).divide(series.plus(series.inv()).ccw())
    }

    fn xcot(self, iterations: usize) -> (z: Comp<R>) {
        let series = self.ixp(iterations);
        series.plus(series.inv()).divide(series.minus(series.inv())).ccw()
    }
}

impl<R: Reals> HyperbolicTrig for Comp<R> {

}

impl<R: Reals> CircularTrigInv for Comp<R> {
    /// `-i ln(z + sqrt(z² - 1))`.
    open spec fn spec_xacos(self, iterations: nat) -> Comp<R> {
        lnn_of_comp(self.spec_plus(root_excess_of(self)), iterations).spec_cw()
    }

    fn xacos(self, iterations: usize) -> (z: Comp<R>) {
        self.plus(root_excess(self)).lnn(iterations).cw()
    }
}

impl<R: Reals> HyperbolicTrigInv for Comp<R> {
    /// `ln(z + sqrt(z² - 1))`, with no domain check.
    open spec fn spec_xacosh(self, iterations: nat) -> Comp<R> {
        lnn_of_comp(self.spec_plus(root_excess_of(self)), iterations)
    }

    fn xacosh(self, iterations: usize) -> (z: Comp<R>) {
        self.plus(root_excess(self)).lnn(iterations)
    }
}

/// Everything: the exponential, the circular and hyperbolic functions, and
/// their inverses.
pub trait Trigonometry:
    Exponential + CircularTrig + CircularTrigInv + HyperbolicTrig + HyperbolicTrigInv {

}

impl Trigonometry for Fixed {

}

impl<R: Reals> Trigonometry for Comp<R> {

}

} // verus!
