//! Laws of the transcendental functions, stated over their specifications
//! and proved.
use vstd::prelude::*;
use crate::rules::{Identity, RealArithmetic, Inverse, UsefulReals, Reals, e_power};
use crate::fixed::{Fixed, SCALE, abs};
use crate::cc::Comp;
use crate::prim::{
    Exponential, CircularTrig, CircularTrigInv, HyperbolicTrigInv, trig_term, trig_series,
    exp_term, exp_series, exp_imag_fixed, exp_real_fixed, strip_count, unit_strip, trig_ratio,
    exp_of_comp,
};
use vstd::arithmetic::div_mod::lemma_fundamental_div_mod;

verus! {

proof fn lemma_zero_ratio<X: Reals>(m: X)
    ensures
        trig_ratio(X::spec_zero(), m) == X::spec_zero(),
{
    let z = X::spec_zero();
    X::lemma_identities(z);
    X::lemma_identities(m);
    X::lemma_identities(m.spec_plus(X::spec_one()));
}

proof fn lemma_trig_at_zero<X: Reals>(start: X, first: X, k: nat)
    requires
        start.spec_regular(),
    ensures
        k >= 1 ==> trig_term(X::spec_zero(), start, first, k) == X::spec_zero(),
        trig_series(X::spec_zero(), start, first, k + 1) == X::spec_zero().spec_plus(start),
    decreases k,
{
    let z = X::spec_zero();
    X::lemma_identities(z);
    X::lemma_identities(start);
    X::lemma_identities(z.spec_plus(start));
    if k >= 1 {
        lemma_trig_at_zero(start, first, (k - 1) as nat);
        let m = crate::prim::trig_index(first, (k - 1) as nat);
        lemma_zero_ratio(m);
        X::lemma_identities(trig_term(z, start, first, (k - 1) as nat));
        assert(trig_term(z, start, first, k) == z);
        assert(trig_series(z, start, first, k) == z.spec_plus(start));
        assert(trig_series(z, start, first, k + 1) == trig_series(z, start, first, k).spec_plus(
            trig_term(z, start, first, k),
        ));
    } else {
        assert(trig_series(z, start, first, 0) == z);
        assert(trig_series(z, start, first, 1) == z.spec_plus(trig_term(z, start, first, 0)));
    }
}

proof fn lemma_exp_at_zero<X: Reals>(k: nat)
    ensures
        k >= 1 ==> exp_term(X::spec_zero(), k) == X::spec_zero(),
        exp_series(X::spec_zero(), k + 1) == X::spec_one(),
    decreases k,
{
    let z = X::spec_zero();
    X::lemma_identities(z);
    X::lemma_identities(X::spec_one());
    if k >= 1 {
        lemma_exp_at_zero::<X>((k - 1) as nat);
        X::lemma_identities(crate::prim::counter::<X>((k - 1) as nat));
        X::lemma_identities(exp_term(z, (k - 1) as nat));
        assert(exp_term(z, k) == z);
        assert(exp_series(z, k + 1) == exp_series(z, k).spec_plus(exp_term(z, k)));
    } else {
        assert(exp_series(z, 0) == z);
        assert(exp_series(z, 1) == z.spec_plus(exp_term(z, 0)));
    }
}

/// At zero, with at least one term, the sine is exactly `ZERO`, the cosine
/// exactly `ONE` and the exponential exactly `ONE`, on any scalar whose
/// constants lie about zero as they do on the real line.
pub proof fn lemma_known_values<X: Reals>(n: nat)
    requires
        n >= 1,
        !X::spec_pi().spec_lt(X::spec_zero()),
        X::spec_pi().spec_negate().spec_lt(X::spec_zero()),
        !X::spec_halfpi().spec_lt(X::spec_zero()),
        !X::spec_zero().spec_lt(X::spec_halfpi().spec_negate()),
        !X::spec_one().spec_lt(X::spec_zero()),
    ensures
        crate::prim::sin_of_real(X::spec_zero(), n) == X::spec_zero(),
        crate::prim::cos_of_real(X::spec_zero(), n) == X::spec_one(),
        crate::prim::exp_of_real(X::spec_zero(), n) == X::spec_one(),
{
    let z = X::spec_zero();
    X::lemma_identities(z);
    X::lemma_identities(X::spec_one());
    X::lemma_identities(X::spec_tau());
    assert(exp_imag_fixed(z) == (z, false));
    lemma_trig_at_zero(z, X::spec_two(), (n - 1) as nat);
    lemma_trig_at_zero(X::spec_one(), X::spec_one(), (n - 1) as nat);
    assert(unit_strip(z, 0) == z);
    assert(strip_count(z, 0) == 0);
    assert(exp_real_fixed(z) == (z, 0nat, false));
    lemma_exp_at_zero::<X>((n - 1) as nat);
    assert(e_power::<X>(0) == X::spec_one());
}

/// The known values hold on the fixed-point scalar: `xsin(0) = 0`,
/// `xcos(0) = 1` and `exp(0) = 1` exactly, for any positive number of terms.
pub proof fn lemma_known_values_fixed(n: nat)
    requires
        n >= 1,
    ensures
        Fixed::spec_zero().spec_xsin(n) == Fixed::spec_zero(),
        Fixed::spec_zero().spec_xcos(n) == Fixed::spec_one(),
        Fixed::spec_zero().spec_exp(n) == Fixed::spec_one(),
{
    lemma_known_values::<Fixed>(n);
}

/// The whole turns that the reduction of an angle takes off it.
spec fn turns_taken(y: Fixed) -> int {
    let t = Fixed::spec_tau().raw as int;
    let a = abs(y.raw as int) as int;
    let q = if y.raw >= 0 {
        a / t
    } else {
        -(a / t)
    };
    let m = Fixed::remainder(y.raw as int, t);
    if Fixed::spec_pi().raw < m {
        q + 1
    } else if m <= -Fixed::spec_pi().raw {
        q - 1
    } else {
        q
    }
}

/// The reduction of an angle on the fixed-point scalar takes whole turns
/// off it and lands in `(-PI, PI]`.
proof fn lemma_half_turn(y: Fixed)
    ensures
        -Fixed::spec_pi().raw < crate::prim::half_turn_rep(y).raw <= Fixed::spec_pi().raw,
        y.raw - crate::prim::half_turn_rep(y).raw == Fixed::spec_tau().raw * turns_taken(y),
{
    let t = Fixed::spec_tau().raw as int;
    let a = abs(y.raw as int) as int;
    lemma_fundamental_div_mod(a, t);
    assert(a % t < t && a % t >= 0) by (nonlinear_arith)
        requires
            t > 0,
            a >= 0,
    ;
}

/// Whole turns added to the imaginary part leave the complex exponential
/// unchanged, exactly, while the sum stays in range.
pub proof fn lemma_exp_periodic(x: Fixed, y: Fixed, k: int, n: nat)
    requires
        -i64::MAX <= y.raw + k * Fixed::spec_tau().raw <= i64::MAX,
    ensures
        exp_of_comp(Comp { r: x, i: Fixed { raw: (y.raw + k * Fixed::spec_tau().raw) as i64 } }, n)
            == exp_of_comp(Comp { r: x, i: y }, n),
{
    let t = Fixed::spec_tau().raw as int;
    let w = Fixed { raw: (y.raw + k * t) as i64 };
    lemma_half_turn(y);
    lemma_half_turn(w);
    let j = turns_taken(w) - turns_taken(y) - k;
    assert(crate::prim::half_turn_rep(y).raw - crate::prim::half_turn_rep(w).raw == t * j) by (
    nonlinear_arith)
        requires
            y.raw - crate::prim::half_turn_rep(y).raw == t * turns_taken(y),
            w.raw - crate::prim::half_turn_rep(w).raw == t * turns_taken(w),
            w.raw == y.raw + k * t,
            j == turns_taken(w) - turns_taken(y) - k,
    ;
    assert(j == 0);
    assert(crate::prim::half_turn_rep(y) == crate::prim::half_turn_rep(w));
}

/// Outside their domains the real inverse functions and the logarithm give
/// the sentinel: `xacos` above one or below minus one, `xacosh` below one,
/// `lnn` at zero and below.
pub proof fn lemma_domain_sentinel(x: Fixed, n: nat)
    ensures
        x.raw > SCALE || x.raw < -SCALE ==> x.spec_xacos(n) == Fixed::spec_undef(),
        x.raw < SCALE ==> x.spec_xacosh(n) == Fixed::spec_undef(),
        x.raw <= 0 ==> x.spec_lnn(n) == Fixed::spec_undef(),
{
}

/// The angle reduction on the fixed-point scalar lands in
/// `[-HALFPI, HALFPI]`.
pub proof fn lemma_angle_folded(y: Fixed)
    ensures
        -Fixed::spec_halfpi().raw <= exp_imag_fixed(y).0.raw <= Fixed::spec_halfpi().raw,
{
    let t = Fixed::spec_tau();
    let a = abs(y.raw as int);
    let b = abs(t.raw as int);
    assert(a % b < b) by (nonlinear_arith)
        requires
            b > 0,
    ;
}

/// Facts about the count of units taken off, from `i` on.
proof fn lemma_strip_count<X: RealArithmetic>(x: X, i: nat)
    requires
        i <= crate::prim::STRIP_LIMIT,
    ensures
        i <= strip_count(x, i) <= crate::prim::STRIP_LIMIT,
        forall|j: nat|
            i <= j < strip_count(x, i) ==> X::spec_one().spec_lt(#[trigger] unit_strip(x, j)),
        strip_count(x, i) < crate::prim::STRIP_LIMIT ==> !X::spec_one().spec_lt(
            unit_strip(x, strip_count(x, i)),
        ),
    decreases crate::prim::STRIP_LIMIT - i,
{
    if i < crate::prim::STRIP_LIMIT && X::spec_one().spec_lt(unit_strip(x, i)) {
        lemma_strip_count(x, i + 1);
    }
}

/// While what is left stays above one, each step takes exactly one unit.
proof fn lemma_strip_exact(x: Fixed, j: nat)
    requires
        x.raw >= 0,
        forall|i: nat| i < j ==> Fixed::spec_one().spec_lt(#[trigger] unit_strip(x, i)),
    ensures
        unit_strip(x, j).raw == x.raw - j * SCALE,
    decreases j,
{
    if j > 0 {
        lemma_strip_exact(x, (j - 1) as nat);
        assert(Fixed::spec_one().spec_lt(unit_strip(x, (j - 1) as nat)));
    }
}

/// The real reduction on the fixed-point scalar splits the magnitude of
/// its argument exactly: what is left plus the units taken off is `|x|`,
/// and what is left lies in `[0, 1]`.
pub proof fn lemma_real_reduction(x: Fixed)
    requires
        x.raw > i64::MIN,
    ensures
        exp_real_fixed(x).0.raw + exp_real_fixed(x).1 * SCALE == abs(x.raw as int),
        0 <= exp_real_fixed(x).0.raw,
        exp_real_fixed(x).0.raw <= SCALE,
{
    let start = if x.raw < 0 {
        x.spec_negate()
    } else {
        x
    };
    assert(start.raw == abs(x.raw as int));
    lemma_strip_count(start, 0);
    let c = strip_count(start, 0);
    lemma_strip_exact(start, c);
    if c > 0 {
        lemma_strip_exact(start, (c - 1) as nat);
        assert(Fixed::spec_one().spec_lt(unit_strip(start, (c - 1) as nat)));
    }
    if c == crate::prim::STRIP_LIMIT {
        assert(c * SCALE == 2147483647 * 4294967296);
    }
}

/// On the fixed-point scalar the tangent is exactly the sine over the
/// cosine, and the cotangent exactly the cosine over the sine.
pub proof fn lemma_tan_is_sin_over_cos(x: Fixed, n: nat)
    ensures
        x.spec_xtan(n) == x.spec_xsin(n).spec_divide(x.spec_xcos(n)),
        x.spec_xcot(n) == x.spec_xcos(n).spec_divide(x.spec_xsin(n)),
{
}

/// Negation on the fixed-point scalar commutes with products and sums,
/// and undoes itself, away from the sentinel.
proof fn lemma_negate_fixed(a: Fixed, b: Fixed)
    requires
        a.raw > i64::MIN,
        b.raw > i64::MIN,
    ensures
        a.spec_negate().spec_negate() == a,
        a.spec_negate().spec_times(b) == a.spec_times(b).spec_negate(),
        a.spec_negate().spec_plus(b.spec_negate()) == a.spec_plus(b).spec_negate(),
        a.spec_negate().spec_times(a) == a.spec_times(a.spec_negate()),
        a.spec_times(b).raw > i64::MIN,
        a.spec_plus(b).raw > i64::MIN,
{
    let na = a.spec_negate();
    assert(na.raw == -a.raw);
    assert(abs(na.raw as int) == abs(a.raw as int));
    let p = ((abs(a.raw as int) * abs(b.raw as int)) / (SCALE as nat)) as int;
    assert(p >= 0) by (nonlinear_arith)
        requires
            p == ((abs(a.raw as int) * abs(b.raw as int)) / (SCALE as nat)) as int,
    ;
    if a.raw == 0 {
        assert(abs(a.raw as int) * abs(b.raw as int) == 0);
        assert(p == 0);
    } else {
        assert(crate::fixed::signed(na.raw as int, b.raw as int, p) == -crate::fixed::signed(
            a.raw as int,
            b.raw as int,
            p,
        ));
    }
    assert(Fixed::product(na.raw as int, b.raw as int) == -Fixed::product(a.raw as int, b.raw as int));
}

/// The folded angle of `-y` is the negated folded angle of `y`, with the
/// same flag.
proof fn lemma_fold_negate(y: Fixed)
    requires
        y.raw > i64::MIN,
    ensures
        exp_imag_fixed(y.spec_negate()) == (exp_imag_fixed(y).0.spec_negate(), exp_imag_fixed(y).1),
        -Fixed::spec_halfpi().raw <= exp_imag_fixed(y).0.raw <= Fixed::spec_halfpi().raw,
{
    lemma_half_turn(y);
    lemma_angle_folded(y);
    let t = Fixed::spec_tau().raw as int;
    let a = abs(y.raw as int);
    assert(abs(y.spec_negate().raw as int) == a);
    assert(a % (t as nat) < t) by (nonlinear_arith)
        requires
            t > 0,
    ;
}

proof fn lemma_sin_odd_series(f: Fixed, k: nat)
    requires
        f.raw > i64::MIN,
    ensures
        trig_term(f.spec_negate(), f.spec_negate(), Fixed::spec_two(), k) == trig_term(
            f,
            f,
            Fixed::spec_two(),
            k,
        ).spec_negate(),
        trig_series(f.spec_negate(), f.spec_negate(), Fixed::spec_two(), k) == trig_series(
            f,
            f,
            Fixed::spec_two(),
            k,
        ).spec_negate(),
        trig_term(f, f, Fixed::spec_two(), k).raw > i64::MIN,
        trig_series(f, f, Fixed::spec_two(), k).raw > i64::MIN,
    decreases k,
{
    let g = f.spec_negate();
    let two = Fixed::spec_two();
    if k > 0 {
        let j = (k - 1) as nat;
        lemma_sin_odd_series(f, j);
        let m = crate::prim::trig_index(two, j);
        lemma_negate_fixed(f, f);
        lemma_negate_fixed(g, f);
        assert(trig_ratio(g, m) == trig_ratio(f, m));
        let r = trig_ratio(f, m);
        let t = trig_term(f, f, two, j);
        let ser = trig_series(f, f, two, j);
        lemma_negate_fixed(t, r);
        lemma_negate_fixed(ser, t);
    }
}

proof fn lemma_cos_even_series(f: Fixed, k: nat)
    requires
        f.raw > i64::MIN,
    ensures
        trig_term(f.spec_negate(), Fixed::spec_one(), Fixed::spec_one(), k) == trig_term(
            f,
            Fixed::spec_one(),
            Fixed::spec_one(),
            k,
        ),
        trig_series(f.spec_negate(), Fixed::spec_one(), Fixed::spec_one(), k) == trig_series(
            f,
            Fixed::spec_one(),
            Fixed::spec_one(),
            k,
        ),
    decreases k,
{
    let g = f.spec_negate();
    let one = Fixed::spec_one();
    if k > 0 {
        let j = (k - 1) as nat;
        lemma_cos_even_series(f, j);
        let m = crate::prim::trig_index(one, j);
        lemma_negate_fixed(f, f);
        lemma_negate_fixed(g, f);
        assert(trig_ratio(g, m) == trig_ratio(f, m));
    }
}

/// On the fixed-point scalar the sine is odd and the cosine even, exactly:
/// `xsin(-x) = -xsin(x)` and `xcos(-x) = xcos(x)`, for any number of terms.
pub proof fn lemma_sin_odd_cos_even(x: Fixed, n: nat)
    requires
        x.raw > i64::MIN,
    ensures
        x.spec_negate().spec_xsin(n) == x.spec_xsin(n).spec_negate(),
        x.spec_negate().spec_xcos(n) == x.spec_xcos(n),
{
    lemma_fold_negate(x);
    let f = exp_imag_fixed(x).0;
    lemma_sin_odd_series(f, n);
    lemma_cos_even_series(f, n);
}

/// On the fixed-point scalar the arc-tangent is odd away from zero:
/// `xatan(-x) = -xatan(x)`, whenever `atan |x|` is an ordinary value.
pub proof fn lemma_atan_odd(x: Fixed, n: nat)
    requires
        x.raw > i64::MIN,
        x.raw != 0,
        crate::prim::root_plus_of(x).spec_inv().spec_xacos(n).raw > i64::MIN,
    ensures
        crate::prim::with_sign_of(
            x.spec_negate(),
            crate::prim::root_plus_of(x.spec_negate()).spec_inv().spec_xacos(n),
        ) == crate::prim::with_sign_of(
            x,
            crate::prim::root_plus_of(x).spec_inv().spec_xacos(n),
        ).spec_negate(),
{
    let g = x.spec_negate();
    lemma_negate_fixed(x, x);
    lemma_negate_fixed(g, x);
    lemma_negate_fixed(x.spec_times(g), x);
    lemma_negate_fixed(x.spec_times(x), x);
    assert(g.spec_times(g) == x.spec_times(x));
    assert(crate::prim::root_plus_of(g) == crate::prim::root_plus_of(x));
    let a = crate::prim::root_plus_of(x).spec_inv().spec_xacos(n);
    lemma_negate_fixed(a, a);
}

} // verus!
