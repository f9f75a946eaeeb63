use numkern::alg::Poly;
use numkern::cc::Comp;
use numkern::fixed::Fixed;
use numkern::prim::{
    cos_raw, exp_imag_fix, exp_raw, exp_real_fix, ln_angle_fix, ln_mag_fix, ln_raw, sin_raw,
    CircularTrig, CircularTrigInv, Exponential, HyperbolicTrig, HyperbolicTrigInv,
};
use numkern::rules::{
    Identity, Inverse, Magnitude, PowersOfE, PowersOfTen, RealArithmetic, UsefulReals,
};

const UNIT: f64 = 4294967296.0;

fn fx(x: f64) -> Fixed {
    Fixed::from_raw((x * UNIT).round() as i64)
}

fn fl(x: Fixed) -> f64 {
    x.raw as f64 / UNIT
}

fn near(a: f64, b: f64, tol: f64) -> bool {
    (a - b).abs() < tol
}

#[test]
fn fixed_arithmetic_exact_values() {
    assert_eq!(fx(1.5).plus(fx(2.25)), fx(3.75));
    assert_eq!(fx(1.5).minus(fx(2.25)), fx(-0.75));
    assert_eq!(fx(1.5).times(fx(-2.0)), fx(-3.0));
    assert_eq!(fx(3.0).divide(fx(-4.0)), fx(-0.75));
    assert_eq!(fx(7.5).modulo(fx(2.0)), fx(1.5));
    assert_eq!(fx(-7.5).modulo(fx(2.0)), fx(-1.5));
    assert_eq!(fx(2.0).negate(), fx(-2.0));
    assert!(fx(1.0).less_than(fx(2.0)));
    assert_eq!(Fixed::from_int(3), fx(3.0));
}

#[test]
fn fixed_saturates_and_divides_by_zero() {
    let big = Fixed::from_raw(i64::MAX);
    assert_eq!(big.plus(fx(1.0)).raw, i64::MAX);
    assert_eq!(fx(5.0).divide(Fixed::zero()).raw, i64::MAX);
    assert_eq!(fx(-5.0).divide(Fixed::zero()).raw, -i64::MAX);
    assert_eq!(Fixed::from_raw(-i64::MAX).minus(fx(1.0)).raw, -i64::MAX);
    assert_ne!(fx(-5.0).divide(Fixed::zero()), Fixed::undef());
    assert_eq!(Fixed::zero().divide(Fixed::zero()), Fixed::zero());
    assert_eq!(fx(0.25).inv(), fx(4.0));
}

#[test]
fn fixed_powers() {
    assert_eq!(Fixed::order_of(2), fx(100.0));
    assert_eq!(Fixed::order_of(-1).raw, 429496729);
    assert_eq!(Fixed::order_of(40).raw, i64::MAX);
    assert_eq!(Fixed::etothe(0), Fixed::one());
    assert_eq!(Fixed::etothe(1), Fixed::e());
    assert!(near(fl(Fixed::etothe(3)), 20.085536923187668, 1e-6));
    assert!(near(fl(Fixed::etothe(-2)), 0.1353352832366127, 1e-6));
}

#[test]
fn known_values_at_zero() {
    for n in 1..30 {
        assert_eq!(Fixed::zero().xsin(n), Fixed::zero());
        assert_eq!(Fixed::zero().xcos(n), Fixed::one());
        assert_eq!(Fixed::zero().exp(n), Fixed::one());
    }
}

#[test]
fn zero_iterations_give_the_zero_term() {
    assert_eq!(fx(0.5).xsin(0), Fixed::zero());
    assert_eq!(fx(0.5).exp(0), Fixed::zero());
}

#[test]
fn exp_then_lnn_round_trip() {
    let mut x = -3.0;
    while x <= 3.0 {
        let y = fx(x).exp(40).lnn(40);
        assert!(near(fl(y), x, 1e-5), "x = {}, got {}", x, fl(y));
        x += 0.37;
    }
}

#[test]
fn lnn_then_exp_round_trip() {
    for &x in &[0.05, 0.3, 0.9, 1.0, 1.7, 4.2, 12.5, 60.0] {
        let y = fx(x).lnn(40).exp(40);
        assert!(near(fl(y) / x, 1.0, 1e-5), "x = {}, got {}", x, fl(y));
    }
}

#[test]
fn exp_known_value() {
    assert!(near(fl(fx(1.0).exp(20)), std::f64::consts::E, 1e-7));
    assert!(near(fl(fx(-2.5).exp(20)), (-2.5f64).exp(), 1e-7));
    assert!(near(fl(fx(10.0).lnn(40)), 10f64.ln(), 1e-6));
}

#[test]
fn lnn_of_non_positive_is_undefined() {
    assert_eq!(fx(-1.0).lnn(20), Fixed::undef());
    assert_eq!(Fixed::zero().lnn(20), Fixed::undef());
}

#[test]
fn euler_identity_on_reals() {
    let mut t = -7.0;
    while t < 7.0 {
        let s = fl(fx(t).xsin(16));
        let c = fl(fx(t).xcos(16));
        assert!(near(s * s + c * c, 1.0, 1e-6), "t = {}", t);
        assert!(near(s, t.sin(), 1e-6), "sin {}", t);
        assert!(near(c, t.cos(), 1e-6), "cos {}", t);
        t += 0.41;
    }
}

#[test]
fn euler_error_shrinks_with_iterations() {
    let t = fx(1.4);
    let err = |n: usize| {
        let s = fl(t.xsin(n));
        let c = fl(t.xcos(n));
        (s * s + c * c - 1.0).abs()
    };
    assert!(err(2) > err(4));
    assert!(err(4) > err(8));
}

#[test]
fn tangent_and_cotangent() {
    assert!(near(fl(fx(0.6).xtan(16)), 0.6f64.tan(), 1e-6));
    assert!(near(fl(fx(2.6).xtan(16)), 2.6f64.tan(), 1e-6));
    assert!(near(fl(fx(0.6).xcot(16)), 1.0 / 0.6f64.tan(), 1e-6));
    assert!(near(fl(fx(0.6).xsec(16)), 1.0 / 0.6f64.cos(), 1e-6));
    assert!(near(fl(fx(0.6).xcsc(16)), 1.0 / 0.6f64.sin(), 1e-6));
}

#[test]
fn hyperbolic_functions() {
    let x = 0.8f64;
    assert!(near(fl(fx(x).xsinh(20)), x.sinh(), 1e-6));
    assert!(near(fl(fx(x).xcosh(20)), x.cosh(), 1e-6));
    assert!(near(fl(fx(x).xtanh(20)), x.tanh(), 1e-6));
    assert!(near(fl(fx(x).xcoth(20)), 1.0 / x.tanh(), 1e-6));
    assert!(near(fl(fx(x).xsech(20)), 1.0 / x.cosh(), 1e-6));
    assert!(near(fl(fx(x).xcsch(20)), 1.0 / x.sinh(), 1e-6));
}

#[test]
fn power_of_reals() {
    assert!(near(fl(fx(2.0).power(fx(3.0), 40)), 8.0, 1e-4));
    assert!(near(fl(fx(9.0).power(fx(0.5), 40)), 3.0, 1e-4));
}

#[test]
fn domain_sentinel() {
    assert_eq!(fx(2.0).xacos(20), Fixed::undef());
    assert_eq!(fx(-1.5).xacos(20), Fixed::undef());
    assert_eq!(fx(0.5).xacosh(20), Fixed::undef());
}

#[test]
fn arc_cosine_in_domain() {
    assert!(near(fl(fx(0.5).xacos(30)), 0.5f64.acos(), 1e-4));
    assert!(near(fl(fx(-0.5).xacos(30)), (-0.5f64).acos(), 1e-4));
    assert_ne!(fx(0.5).xacos(30), Fixed::undef());
}

#[test]
fn inverse_hyperbolic_sine() {
    assert!(near(fl(fx(1.2).xasinh(40)), 1.2f64.asinh(), 1e-4));
}

#[test]
fn quarter_turns() {
    let z = Comp::new(fx(1.0), fx(2.0));
    assert_eq!(z.ccw(), Comp::new(fx(-2.0), fx(1.0)));
    assert_eq!(z.cw(), Comp::new(fx(2.0), fx(-1.0)));
    assert_eq!(z.conj(), Comp::new(fx(1.0), fx(-2.0)));
    assert_eq!(Comp::nre(fx(3.0)), Comp::new(fx(3.0), Fixed::zero()));
    assert_eq!(Comp::nim(fx(3.0)), Comp::new(Fixed::zero(), fx(3.0)));
}

#[test]
fn complex_field_operations() {
    let a = Comp::new(fx(1.0), fx(2.0));
    let b = Comp::new(fx(3.0), fx(-1.0));
    assert_eq!(a.times(b), Comp::new(fx(5.0), fx(5.0)));
    assert_eq!(a.times(b).divide(b), a);
    assert_eq!(a.plus(b), Comp::new(fx(4.0), fx(1.0)));
    assert_eq!(Comp::new(fx(0.0), fx(2.0)).inv(), Comp::new(fx(0.0), fx(-0.5)));
    assert!(b.less_than(Comp::new(fx(0.0), fx(4.0))));
}

#[test]
fn complex_exp_is_periodic_in_the_imaginary_part() {
    let x = 0.7;
    let base = Comp::new(fx(x), Fixed::zero()).exp(30);
    for k in -3..=3 {
        let z = Comp::new(fx(x), fx(k as f64 * std::f64::consts::TAU));
        let e = z.exp(30);
        assert!(near(fl(e.r), fl(base.r), 1e-5), "k = {}", k);
        assert!(near(fl(e.i), fl(base.i), 1e-5), "k = {}", k);
    }
}

#[test]
fn complex_exp_on_the_unit_circle() {
    let e = Comp::new(fx(0.5), fx(2.0)).exp(30);
    let m = 0.5f64.exp();
    assert!(near(fl(e.r), m * 2.0f64.cos(), 1e-5));
    assert!(near(fl(e.i), m * 2.0f64.sin(), 1e-5));
}

#[test]
fn large_exponent_matches_split_series() {
    let x = 7.3f64;
    let whole = fl(fx(x).exp(30));
    let split = fl(fx(x - 7.0).exp(60)) * fl(Fixed::etothe(7));
    assert!(near(whole / split, 1.0, 1e-6));
    assert!(near(whole / x.exp(), 1.0, 1e-6));
}

#[test]
fn complex_logarithm() {
    let z = Comp::new(fx(3.0), fx(1.0));
    let l = z.lnn(40);
    assert!(near(fl(l.r), 10f64.sqrt().ln(), 1e-4));
    assert!(near(fl(l.i), 1f64.atan2(3.0), 1e-4));
    let z = Comp::new(fx(-2.0), fx(-0.5));
    let l = z.lnn(40);
    assert!(near(fl(l.r), 4.25f64.sqrt().ln(), 1e-4));
    assert!(near(fl(l.i), (-0.5f64).atan2(-2.0) + std::f64::consts::TAU, 1e-4));
}

#[test]
fn complex_sine_and_cosine() {
    let z = Comp::new(fx(0.4), Fixed::zero());
    assert!(near(fl(z.xsin(30).r), 0.4f64.sin(), 1e-5));
    assert!(near(fl(z.xcos(30).r), 0.4f64.cos(), 1e-5));
    assert!(near(fl(z.xtan(30).r), 0.4f64.tan(), 1e-5));
}

#[test]
fn polynomial_derivative_and_integral() {
    let p = Poly::new(vec![fx(1.0), fx(2.0), fx(3.0)]);
    let d = p.dvt();
    assert_eq!(d.co, vec![fx(2.0), fx(6.0)]);
    assert_eq!(d.le, 2);
    let i = d.itg(fx(1.0));
    assert_eq!(i.co, p.co);
    assert_eq!(i.le, 3);
    let z: Poly<Fixed> = Poly::new(vec![]);
    assert_eq!(z.dvt().le, 0);
}

#[test]
fn polynomial_evaluation() {
    let p = Poly::new(vec![fx(6.0), fx(-5.0), fx(1.0)]);
    assert_eq!(p.eval(fx(2.0)), Fixed::zero());
    assert_eq!(p.eval(fx(0.0)), fx(6.0));
    assert_eq!(p.eval(fx(4.0)), fx(2.0));
}

#[test]
fn synthetic_division() {
    let p = Poly::new(vec![fx(6.0), fx(-5.0), fx(1.0)]);
    let (q, rem) = p.rootdiv(fx(2.0));
    assert_eq!(q.co, vec![fx(-3.0), fx(1.0)]);
    assert_eq!(q.le, 2);
    assert_eq!(rem, Fixed::zero());
    let p = Poly::new(vec![fx(6.0), fx(-5.0), fx(1.0)]);
    let (_, rem) = p.rootdiv(fx(4.0));
    assert_eq!(rem, fx(2.0));
}

#[test]
fn newton_linear_case() {
    let p = Poly::new(vec![fx(-3.0), fx(2.0)]);
    assert_eq!(p.newton(fx(0.0001)), fx(1.5));
}

#[test]
fn solve_square_root_of_two() {
    let error = 1e-6;
    let roots = Poly::new(vec![fx(-2.0), fx(0.0), fx(1.0)]).solve(fx(error));
    assert_eq!(roots.len(), 2);
    for r in roots {
        let v = fl(r);
        assert!((v * v - 2.0).abs() < error * 10.0, "root {}", v);
    }
}

#[test]
fn solve_double_root_at_zero() {
    let roots = Poly::new(vec![fx(0.0), fx(0.0), fx(1.0)]).solve(fx(1e-6));
    assert_eq!(roots.len(), 2);
    for r in roots {
        assert!(fl(r).abs() < 1e-2, "root {}", fl(r));
    }
}

#[test]
fn solve_two_and_three() {
    let roots = Poly::new(vec![fx(6.0), fx(-5.0), fx(1.0)]).solve(fx(1e-8));
    assert_eq!(roots.len(), 2);
    let mut v: Vec<f64> = roots.iter().map(|r| fl(*r)).collect();
    v.sort_by(|a, b| a.partial_cmp(b).unwrap());
    assert!(near(v[0], 2.0, 1e-4), "{:?}", v);
    assert!(near(v[1], 3.0, 1e-4), "{:?}", v);
}

#[test]
fn solve_complex_roots() {
    let one = Comp::new(fx(1.0), Fixed::zero());
    let zero = Comp::new(Fixed::zero(), Fixed::zero());
    let roots = Poly::new(vec![one, zero, one]).solve(Comp::new(fx(1e-8), Fixed::zero()));
    assert_eq!(roots.len(), 2);
    for r in roots {
        assert!(near(fl(r.r), 0.0, 1e-3));
        assert!(near(fl(r.i).abs(), 1.0, 1e-3));
    }
}

#[test]
fn newton_stagnation_terminates() {
    // x³ - 3x has a stationary point at the seed, x = 1.
    let p = Poly::new(vec![fx(0.0), fx(-3.0), fx(0.0), fx(1.0)]);
    let roots = p.solve(fx(1e-8));
    assert_eq!(roots.len(), 3);
    // x² - 2x + 2 has its stationary point at the seed and no real root.
    let q = Poly::new(vec![fx(2.0), fx(-2.0), fx(1.0)]);
    let _ = q.newton(fx(1e-8));
}

#[test]
fn magnitude_square_root() {
    assert!(near(fl(fx(2.0).rrt(fx(1e-8))), 2f64.sqrt(), 1e-6));
    assert!(near(fl(fx(-3.0).mag1(fx(1e-8))), 3.0, 1e-6));
}

#[test]
fn inverse_circular_functions() {
    assert!(near(fl(fx(0.5).xasin(30)), 0.5f64.asin(), 1e-3));
    assert!(near(fl(fx(2.0).xacsc(30)), 0.5f64.asin(), 1e-3));
    assert!(near(fl(fx(2.0).xasec(30)), 0.5f64.acos(), 1e-3));
    assert!(near(fl(fx(1.0).xatan(30)), 1f64.atan(), 1e-3));
    assert!(near(fl(fx(2.0).xacot(30)), 0.5f64.atan(), 1e-3));
}

#[test]
fn inverse_hyperbolic_functions() {
    assert!(near(fl(fx(2.0).xacosh(40)), 2f64.acosh(), 1e-3));
    assert!(near(fl(fx(0.5).xasech(40)), 2f64.acosh(), 1e-3));
    assert!(near(fl(fx(0.5).xacsch(40)), 2f64.asinh(), 1e-3));
    assert!(near(fl(fx(0.5).xatanh(40)), 0.5f64.atanh(), 1e-3));
    assert!(near(fl(fx(2.0).xacoth(40)), 0.5f64.atanh(), 1e-3));
}

#[test]
fn complex_inverse_cosines() {
    let z = Comp::new(fx(0.5), Fixed::zero());
    let a = z.xacos(40);
    assert!(near(fl(a.r).abs(), 0.5f64.acos(), 1e-3), "{} {}", fl(a.r), fl(a.i));
    assert!(near(fl(a.i), 0.0, 1e-3));
    let w = Comp::new(fx(2.0), Fixed::zero());
    let h = w.xacosh(40);
    assert!(near(fl(h.r), 2f64.acosh(), 1e-3));
}

#[test]
fn complex_round_trip() {
    let z = Comp::new(fx(0.3), fx(0.8));
    // Near the diagonal the reduced logarithm converges slowly.
    let back = z.exp(40).lnn(200);
    assert!(near(fl(back.r), 0.3, 1e-4));
    assert!(near(fl(back.i), 0.8, 1e-4));
}

#[test]
fn polynomial_arithmetic() {
    let p = || Poly::new(vec![fx(1.0), fx(2.0)]);
    let q = || Poly::new(vec![fx(3.0), fx(0.0), fx(1.0)]);
    assert_eq!(p().plus(q()).co, vec![fx(4.0), fx(2.0), fx(1.0)]);
    assert_eq!(p().minus(q()).co, vec![fx(-2.0), fx(2.0), fx(-1.0)]);
    assert_eq!(q().minus(p()).co, vec![fx(2.0), fx(-2.0), fx(1.0)]);
    assert_eq!(p().negate().co, vec![fx(-1.0), fx(-2.0)]);
    let m = p().times(q());
    assert_eq!(m.co, vec![fx(3.0), fx(6.0), fx(1.0), fx(2.0)]);
    assert_eq!(m.le, 4);
}

#[test]
fn integer_powers_of_ten() {
    assert_eq!(<i32 as PowersOfTen>::order_of(4), 10000);
    assert_eq!(<u8 as PowersOfTen>::order_of(2), 100);
    assert_eq!(<i64 as PowersOfTen>::order_of(-3), 0);
    assert_eq!(<usize as PowersOfTen>::order_of(0), 1);
    assert_eq!(<i8 as Identity>::one(), 1);
}

#[test]
fn real_reduction_splits_whole_units() {
    assert_eq!(exp_real_fix(fx(3.25)), (fx(0.25), 3, false));
    assert_eq!(exp_real_fix(fx(-3.0)), (fx(1.0), 2, true));
    assert_eq!(exp_real_fix(fx(0.5)), (fx(0.5), 0, false));
}

#[test]
fn angle_reduction_folds_into_half_turn() {
    let pi = Fixed::pi();
    assert_eq!(exp_imag_fix(fx(2.0)), (pi.minus(fx(2.0)), true));
    assert_eq!(exp_imag_fix(fx(1.0)), (fx(1.0), false));
    assert_eq!(exp_imag_fix(fx(-2.0)), (pi.negate().minus(fx(-2.0)), true));
    let mut t = -40.0;
    while t < 40.0 {
        let (a, _) = exp_imag_fix(fx(t));
        assert!(a.raw.abs() <= Fixed::halfpi().raw, "t = {}", t);
        t += 0.77;
    }
}

#[test]
fn magnitude_reduction_raises_by_powers_of_e() {
    assert_eq!(ln_mag_fix(fx(0.25)), (fx(0.25).times(Fixed::e()), Fixed::one(), false));
    assert_eq!(ln_mag_fix(fx(0.9)), (fx(0.9), Fixed::zero(), false));
    let (out, extra, inverted) = ln_mag_fix(fx(4.0));
    assert!(inverted);
    assert_eq!(extra, Fixed::one());
    assert_eq!(out, fx(0.25).times(Fixed::e()));
}

#[test]
fn octant_reduction_turns_onto_an_axis() {
    let (u, a) = ln_angle_fix(Comp::new(fx(0.6), fx(-0.8)));
    assert_eq!(u, Comp::new(fx(0.8), fx(0.6)));
    assert_eq!(a, Fixed::halfpi().negate());
    let (u, a) = ln_angle_fix(Comp::new(fx(-0.8), fx(0.6)));
    assert_eq!(u, Comp::new(fx(0.8), fx(-0.6)));
    assert_eq!(a, Fixed::pi());
    let (u, a) = ln_angle_fix(Comp::new(fx(0.8), fx(0.6)));
    assert_eq!(u, Comp::new(fx(0.8), fx(0.6)));
    assert_eq!(a, Fixed::zero());
}

#[test]
fn raw_series_partial_sums() {
    assert_eq!(exp_raw(fx(1.0), 3), fx(2.5));
    assert_eq!(sin_raw(fx(1.0), 1), fx(1.0));
    assert_eq!(cos_raw(fx(1.0), 2), fx(0.5));
    assert_eq!(ln_raw(fx(1.5), 2), fx(0.375));
    assert_eq!(ln_raw(fx(1.0), 10), Fixed::zero());
}

#[test]
fn arc_tangent_keeps_the_sign() {
    assert!(near(fl(fx(-1.0).xatan(30)), -std::f64::consts::FRAC_PI_4, 1e-3));
    assert!(near(fl(fx(1.0).xatan(30)), std::f64::consts::FRAC_PI_4, 1e-3));
    assert!(near(fl(fx(-2.0).xacot(30)), (-0.5f64).atan(), 1e-3));
    assert!(near(fl(fx(-0.5).xatanh(40)), (-0.5f64).atanh(), 1e-3));
    assert!(near(fl(fx(-2.0).xacoth(40)), (-0.5f64).atanh(), 1e-3));
    assert_eq!(fx(-1.0).xatan(30), fx(1.0).xatan(30).negate());
}

#[test]
fn sine_is_odd_at_half_turns() {
    let pi = Fixed::pi();
    assert_eq!(Fixed::tau().raw, 2 * pi.raw);
    for n in 1..6 {
        assert_eq!(pi.negate().xsin(n), pi.xsin(n).negate());
        assert_eq!(pi.negate().xcos(n), pi.xcos(n));
    }
    let mut t = -9.0;
    while t < 9.0 {
        assert_eq!(fx(-t).xsin(12), fx(t).xsin(12).negate(), "t = {}", t);
        t += 0.53;
    }
}

#[test]
fn tangent_is_sine_over_cosine() {
    let x = Fixed::from_raw(7419036705);
    assert_eq!(x.xtan(2), x.xsin(2).divide(x.xcos(2)));
    let mut t = -6.0;
    while t < 6.0 {
        let y = fx(t);
        assert_eq!(y.xtan(9), y.xsin(9).divide(y.xcos(9)));
        t += 0.61;
    }
}

#[test]
fn large_exponents_are_fully_reduced() {
    assert_eq!(exp_real_fix(fx(3000.0)), (fx(1.0), 2999, false));
    assert_eq!(exp_real_fix(fx(-2500.5)), (fx(0.5), 2500, true));
}

#[test]
fn newton_reports_whether_it_settled() {
    let p = Poly::new(vec![fx(6.0), fx(-5.0), fx(1.0)]);
    let (r, settled) = p.newton_settled(fx(1e-8));
    assert!(settled);
    assert!(near(fl(r), 2.0, 1e-4) || near(fl(r), 3.0, 1e-4));
    let q = Poly::new(vec![fx(1.0), fx(0.0), fx(1.0)]);
    let (_, settled) = q.newton_settled(fx(1e-8));
    assert!(!settled);
    let l = Poly::new(vec![fx(-3.0), fx(2.0)]);
    assert_eq!(l.newton_settled(fx(1e-8)), (fx(1.5), true));
}

#[test]
fn complex_exp_is_exactly_periodic_across_signs() {
    let tau = Fixed::tau().raw;
    let pi = Fixed::pi().raw;
    for &y in &[pi, -pi, pi - tau, 1, -1, 3 * pi / 2, -(tau / 3)] {
        let base = Comp::new(fx(0.4), Fixed::from_raw(y)).exp(20);
        for k in -4i64..=4 {
            let z = Comp::new(fx(0.4), Fixed::from_raw(y + k * tau));
            assert_eq!(z.exp(20), base, "y = {}, k = {}", y, k);
        }
    }
}

#[test]
fn cosine_is_even() {
    let mut t = -8.0;
    while t < 8.0 {
        assert_eq!(fx(-t).xcos(11), fx(t).xcos(11), "t = {}", t);
        t += 0.47;
    }
}
