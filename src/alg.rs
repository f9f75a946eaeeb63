//! Dense polynomials, lowest degree first, and Newton's method with
//! synthetic-division deflation for their roots.
use vstd::prelude::*;
use crate::rules::{Identity, RealArithmetic, MagSquare};
use crate::prim::counter;

verus! {

/// How many Newton steps pass without convergence before both iterates are
/// pushed away from a stationary point or a cycle.
pub const STAGNATION_LIMIT: usize = 100;

/// How many Newton steps one root may take in all.
pub const NEWTON_LIMIT: usize = 10000;

/// `x^k`, as `ONE` times `x`, `k` times over.
pub open spec fn power_of<T: RealArithmetic>(x: T, k: nat) -> T
    decreases k,
{
    if k == 0 {
        T::spec_one()
    } else {
        power_of(x, (k - 1) as nat).spec_times(x)
    }
}

/// `Σ_{j<k} co[j] · x^j`, summed from the constant term up.
pub open spec fn eval_prefix<T: RealArithmetic>(co: Seq<T>, x: T, k: nat) -> T
    decreases k,
{
    if k == 0 {
        T::spec_zero()
    } else {
        eval_prefix(co, x, (k - 1) as nat).spec_plus(
            co[k - 1].spec_times(power_of(x, (k - 1) as nat)),
        )
    }
}

/// The value of the polynomial with coefficients `co` at `x`.
pub open spec fn eval_seq<T: RealArithmetic>(co: Seq<T>, x: T) -> T {
    eval_prefix(co, x, co.len())
}

/// The coefficients of the derivative: `co[j+1] · (j+1)`.
pub open spec fn deriv_seq<T: RealArithmetic>(co: Seq<T>) -> Seq<T> {
    if co.len() == 0 {
        co
    } else {
        Seq::new((co.len() - 1) as nat, |j: int| co[j + 1].spec_times(counter::<T>(j as nat)))
    }
}

/// The coefficients of the integral with constant `c`: `c`, then
/// `co[j] / (j+1)`.
pub open spec fn integral_seq<T: RealArithmetic>(co: Seq<T>, c: T) -> Seq<T> {
    Seq::new(co.len() + 1, |j: int| if j == 0 { c } else { co[j - 1].spec_divide(counter::<T>((j - 1) as nat)) })
}

/// The running value after `k` steps of synthetic division by `x - root`,
/// taking coefficients from the top down.
pub open spec fn synth<T: RealArithmetic>(co: Seq<T>, root: T, k: nat) -> T
    decreases k,
{
    if k == 0 {
        T::spec_zero()
    } else {
        synth(co, root, (k - 1) as nat).spec_times(root).spec_plus(co[co.len() - k])
    }
}

/// The quotient of `co` by `x - root`, lowest degree first.
pub open spec fn deflate_seq<T: RealArithmetic>(co: Seq<T>, root: T) -> Seq<T> {
    Seq::new((co.len() - 1) as nat, |j: int| synth(co, root, (co.len() - 1 - j) as nat))
}

/// One Newton step: `s - P(s) / P'(s)`.
pub open spec fn newton_step<T: RealArithmetic>(co: Seq<T>, s: T) -> T {
    s.spec_minus(eval_seq(co, s).spec_divide(eval_seq(deriv_seq(co), s)))
}

/// Newton's iteration from the pair `(s1, s2)` with `count` steps since the
/// last push: it stops once the two iterates differ by no more than `error`
/// in squared norm, or when `fuel` steps are spent. After more than
/// `STAGNATION_LIMIT` steps the iterates are pushed by `SEED`. The result
/// is the last iterate, the one before it, and the fuel left.
pub open spec fn newton_iterate<T: MagSquare>(
    co: Seq<T>,
    error: T,
    s1: T,
    s2: T,
    count: nat,
    fuel: nat,
) -> (T, T, nat)
    decreases fuel,
{
    if fuel == 0 || !error.spec_lt(s1.spec_minus(s2).spec_mag2()) {
        (s1, s2, fuel)
    } else {
        let pushed = count > STAGNATION_LIMIT;
        let a = if pushed {
            s1.spec_plus(T::spec_seed())
        } else {
            s1
        };
        let c = if pushed {
            0
        } else {
            count
        };
        newton_iterate(co, error, newton_step(co, a), a, c + 1, (fuel - 1) as nat)
    }
}

/// The run of Newton's iteration from `SEED`.
pub open spec fn newton_run<T: MagSquare>(co: Seq<T>, error: T) -> (T, T, nat) {
    newton_iterate(
        co,
        error,
        T::spec_seed(),
        T::spec_seed().spec_plus(T::spec_one()),
        0,
        NEWTON_LIMIT as nat,
    )
}

/// The root that Newton's method finds for `co`: straight from the two
/// coefficients when there are two, else the last iterate of the run.
pub open spec fn newton_seq<T: MagSquare>(co: Seq<T>, error: T) -> T {
    if co.len() == 2 {
        co[0].spec_negate().spec_divide(co[1])
    } else {
        newton_run(co, error).0
    }
}

/// Whether Newton's method settled: the last two iterates differ by no
/// more than `error` in squared norm, or the root came in closed form.
pub open spec fn newton_settles<T: MagSquare>(co: Seq<T>, error: T) -> bool {
    co.len() == 2 || !error.spec_lt(newton_run(co, error).0.spec_minus(newton_run(co, error).1).spec_mag2())
}

/// The iteration stops unsettled only when its fuel is spent, and after
/// any step the last iterate is one Newton step from the one before.
proof fn lemma_newton_iterate<T: MagSquare>(
    co: Seq<T>,
    error: T,
    s1: T,
    s2: T,
    count: nat,
    fuel: nat,
)
    ensures
        newton_iterate(co, error, s1, s2, count, fuel).2 <= fuel,
        newton_iterate(co, error, s1, s2, count, fuel).2 == fuel ==> newton_iterate(
            co,
            error,
            s1,
            s2,
            count,
            fuel,
        ).0 == s1 && newton_iterate(co, error, s1, s2, count, fuel).1 == s2,
        newton_iterate(co, error, s1, s2, count, fuel).2 > 0 ==> !error.spec_lt(
            newton_iterate(co, error, s1, s2, count, fuel).0.spec_minus(
                newton_iterate(co, error, s1, s2, count, fuel).1,
            ).spec_mag2(),
        ),
        newton_iterate(co, error, s1, s2, count, fuel).2 < fuel ==> newton_iterate(
            co,
            error,
            s1,
            s2,
            count,
            fuel,
        ).0 == newton_step(co, newton_iterate(co, error, s1, s2, count, fuel).1),
    decreases fuel,
{
    if fuel > 0 && error.spec_lt(s1.spec_minus(s2).spec_mag2()) {
        let pushed = count > STAGNATION_LIMIT;
        let a = if pushed {
            s1.spec_plus(T::spec_seed())
        } else {
            s1
        };
        let c = if pushed {
            0
        } else {
            count
        };
        lemma_newton_iterate(co, error, newton_step(co, a), a, c + 1, (fuel - 1) as nat);
    }
}

/// The roots found by finding one and deflating, until one coefficient or
/// none is left, in the order found.
pub open spec fn solve_seq<T: MagSquare>(co: Seq<T>, error: T) -> Seq<T>
    decreases co.len(),
{
    if co.len() <= 1 {
        Seq::empty()
    } else {
        let root = newton_seq(co, error);
        seq![root] + solve_seq(deflate_seq(co, root), error)
    }
}

/// A polynomial: its coefficients, lowest degree first, and their count.
#[derive(Clone, Debug)]
pub struct Poly<T> {
    pub co: Vec<T>,
    pub le: usize,
}

/// The elements of `items` in reverse order.
pub fn vec_flip<T: Copy>(items: Vec<T>) -> (r: Vec<T>)
    ensures
        r@ == items@.reverse(),
{
    let mut result: Vec<T> = Vec::new();
    let le = items.len();
    let mut indx: usize = 0;
    while indx < le
        invariant
            le == items.len(),
            indx <= le,
            result@ == items@.reverse().subrange(0, indx as int),
        decreases le - indx,
    {
        result.push(items[le - indx - 1]);
        indx = indx + 1;
        assert(result@ =~= items@.reverse().subrange(0, indx as int));
    }
    assert(result@ =~= items@.reverse());
    result
}

impl<T: MagSquare> Poly<T> {
    /// The count matches the coefficients.
    pub open spec fn wf(&self) -> bool {
        self.le == self.co.len()
    }

    pub fn new(co: Vec<T>) -> (p: Self)
        ensures
            p.wf(),
            p.co@ == co@,
    {
        let le = co.len();
        Poly { co, le }
    }

    /// The derivative; the zero polynomial is its own.
    pub fn dvt(&self) -> (p: Self)
        requires
            self.wf(),
        ensures
            p.wf(),
            p.co@ == deriv_seq(self.co@),
    {
        if self.le == 0 {
            return Poly { co: Vec::new(), le: 0 };
        }
        let one = T::one();
        let mut result: Vec<T> = Vec::new();
        let mut divisor = T::one();
        let mut indx: usize = 1;
        while indx < self.le
            invariant
                self.wf(),
                1 <= indx <= self.le,
                one == T::spec_one(),
                divisor == counter::<T>((indx - 1) as nat),
                result@ == deriv_seq(self.co@).subrange(0, indx - 1),
            decreases self.le - indx,
        {
            result.push(self.co[indx].times(divisor));
            divisor = divisor.plus(one);
            indx = indx + 1;
            assert(result@ =~= deriv_seq(self.co@).subrange(0, indx - 1));
        }
        assert(result@ =~= deriv_seq(self.co@));
        Poly { co: result, le: self.le - 1 }
    }

    /// The integral whose constant term is `plus_c`.
    pub fn itg(&self, plus_c: T) -> (p: Self)
        requires
            self.wf(),
            self.le < usize::MAX,
        ensures
            p.wf(),
            p.co@ == integral_seq(self.co@, plus_c),
    {
        let one = T::one();
        let mut result: Vec<T> = Vec::new();
        result.push(plus_c);
        let mut divisor = T::one();
        let mut indx: usize = 0;
        while indx < self.le
            invariant
                self.wf(),
                self.le < usize::MAX,
                indx <= self.le,
                one == T::spec_one(),
                divisor == counter::<T>(indx as nat),
                result@ == integral_seq(self.co@, plus_c).subrange(0, indx + 1),
            decreases self.le - indx,
        {
            result.push(self.co[indx].divide(divisor));
            divisor = divisor.plus(one);
            indx = indx + 1;
            assert(result@ =~= integral_seq(self.co@, plus_c).subrange(0, indx + 1));
        }
        assert(result@ =~= integral_seq(self.co@, plus_c));
        Poly { co: result, le: self.le + 1 }
    }

    /// The value at `input`, as a direct sum of powers.
    pub fn eval(&self, input: T) -> (r: T)
        requires
            self.wf(),
        ensures
            r == eval_seq(self.co@, input),
    {
        let mut total = T::zero();
        let mut exponent = T::one();
        let mut indx: usize = 0;
        while indx < self.le
            invariant
                self.wf(),
                indx <= self.le,
                total == eval_prefix(self.co@, input, indx as nat),
                exponent == power_of(input, indx as nat),
            decreases self.le - indx,
        {
            total = total.plus(self.co[indx].times(exponent));
            exponent = exponent.times(input);
            indx = indx + 1;
        }
        total
    }

    /// One root by Newton's method; see `newton_seq`. The root may be
    /// unsettled: when `NEWTON_LIMIT` steps pass without two iterates
    /// coming within `error`, the last iterate is returned anyway. Use
    /// `newton_settled` to learn which.
    pub fn newton(&self, error: T) -> (r: T)
        requires
            self.wf(),
        ensures
            r == newton_seq(self.co@, error),
            newton_settles(self.co@, error) || newton_run(self.co@, error).2 == 0,
            self.le != 2 && newton_run(self.co@, error).2 < NEWTON_LIMIT ==> r == newton_step(
                self.co@,
                newton_run(self.co@, error).1,
            ),
    {
        self.newton_settled(error).0
    }

    /// One root by Newton's method, and whether it settled within `error`.
    pub fn newton_settled(&self, error: T) -> (r: (T, bool))
        requires
            self.wf(),
        ensures
            r.0 == newton_seq(self.co@, error),
            r.1 == newton_settles(self.co@, error),
            newton_settles(self.co@, error) || newton_run(self.co@, error).2 == 0,
            self.le != 2 && newton_run(self.co@, error).2 < NEWTON_LIMIT ==> r.0 == newton_step(
                self.co@,
                newton_run(self.co@, error).1,
            ),
    {
        proof {
            lemma_newton_iterate(
                self.co@,
                error,
                T::spec_seed(),
                T::spec_seed().spec_plus(T::spec_one()),
                0,
                NEWTON_LIMIT as nat,
            );
        }
        if self.le == 2 {
            return (self.co[0].negate().divide(self.co[1]), true);
        }
        let seed = T::seed();
        let one = T::one();
        let mut s1 = seed;
        let mut s2 = seed.plus(one);
        let slope = self.dvt();
        let mut loop_count: usize = 0;
        let mut fuel: usize = NEWTON_LIMIT;
        while fuel > 0 && error.less_than(s1.minus(s2).mag2())
            invariant
                self.wf(),
                slope.wf(),
                slope.co@ == deriv_seq(self.co@),
                self.le != 2,
                seed == T::spec_seed(),
                one == T::spec_one(),
                loop_count <= STAGNATION_LIMIT + 1,
                newton_iterate(self.co@, error, s1, s2, loop_count as nat, fuel as nat)
                    == newton_run(self.co@, error),
            decreases fuel,
        {
            if loop_count > STAGNATION_LIMIT {
                s1 = s1.plus(seed);
                s2 = s2.plus(seed.plus(one));
                loop_count = 0;
            }
            s2 = s1;
            s1 = s1.minus(self.eval(s2).divide(slope.eval(s2)));
            loop_count = loop_count + 1;
            fuel = fuel - 1;
        }
        let settled = !error.less_than(s1.minus(s2).mag2());
        (s1, settled)
    }

    /// Synthetic division by `x - root`: the quotient, and the remainder,
    /// which is the value at `root`.
    pub fn rootdiv(self, root: T) -> (r: (Self, T))
        requires
            self.wf(),
            self.le >= 1,
        ensures
            r.0.wf(),
            r.0.co@ == deflate_seq(self.co@, root),
            r.1 == synth(self.co@, root, self.le as nat),
    {
        let mut running = T::zero();
        let mut quotient: Vec<T> = Vec::new();
        let mut subtract: usize = 0;
        while subtract < self.le
            invariant
                self.wf(),
                subtract <= self.le,
                running == synth(self.co@, root, subtract as nat),
                quotient@ == Seq::new(subtract as nat, |j: int| synth(self.co@, root, (j + 1) as nat)),
            decreases self.le - subtract,
        {
            running = running.times(root).plus(self.co[self.le - subtract - 1]);
            quotient.push(running);
            subtract = subtract + 1;
            assert(quotient@ =~= Seq::new(subtract as nat, |j: int| synth(self.co@, root, (j + 1) as nat)));
        }
        let mut flipped = vec_flip(quotient);
        let remainder = flipped.remove(0);
        assert(flipped@ =~= deflate_seq(self.co@, root));
        (Poly { co: flipped, le: self.le - 1 }, remainder)
    }

    /// Every root, found one at a time and divided out, in the order found.
    pub fn solve(self, error: T) -> (r: Vec<T>)
        requires
            self.wf(),
        ensures
            r@ == solve_seq(self.co@, error),
            self.le >= 1 ==> r@.len() == self.le - 1,
    {
        let mut running = self;
        let mut sols: Vec<T> = Vec::new();
        while running.le > 1
            invariant
                running.wf(),
                sols@ + solve_seq(running.co@, error) == solve_seq(self.co@, error),
                self.le >= 1 ==> sols@.len() + running.le == self.le && running.le >= 1,
            decreases running.le,
        {
            let next_root = running.newton(error);
            proof {
                let rest = solve_seq(deflate_seq(running.co@, next_root), error);
                assert(sols@.push(next_root) + rest =~= sols@ + (seq![next_root] + rest));
            }
            sols.push(next_root);
            running = running.rootdiv(next_root).0;
        }
        assert(solve_seq(running.co@, error) =~= Seq::<T>::empty());
        assert(sols@ + solve_seq(running.co@, error) =~= sols@);
        sols
    }
}

/// The coefficient of degree `k` in the product of `a` and `b`, summed
/// over the terms `a[j] · b[k - j]` with `j < l`, in increasing `j`.
pub open spec fn conv<T: RealArithmetic>(a: Seq<T>, b: Seq<T>, k: int, l: nat) -> T
    decreases l,
{
    if l == 0 {
        T::spec_zero()
    } else {
        let prev = conv(a, b, k, (l - 1) as nat);
        let r = k - (l - 1);
        if 0 <= r < b.len() {
            prev.spec_plus(a[l - 1].spec_times(b[r]))
        } else {
            prev
        }
    }
}

/// The coefficients of the product of `a` and `b`.
pub open spec fn mul_seq<T: RealArithmetic>(a: Seq<T>, b: Seq<T>) -> Seq<T> {
    Seq::new((a.len() + b.len() - 1) as nat, |k: int| conv(a, b, k, a.len()))
}

/// The coefficientwise sum; the longer polynomial keeps its higher terms.
pub open spec fn add_seq<T: RealArithmetic>(a: Seq<T>, b: Seq<T>) -> Seq<T> {
    Seq::new(
        if a.len() > b.len() {
            a.len()
        } else {
            b.len()
        },
        |j: int|
            if j < a.len() && j < b.len() {
                a[j].spec_plus(b[j])
            } else if j < a.len() {
                a[j]
            } else {
                b[j]
            },
    )
}

/// The coefficientwise difference; terms of `b` beyond `a` are negated.
pub open spec fn sub_seq<T: RealArithmetic>(a: Seq<T>, b: Seq<T>) -> Seq<T> {
    Seq::new(
        if a.len() > b.len() {
            a.len()
        } else {
            b.len()
        },
        |j: int|
            if j < a.len() && j < b.len() {
                a[j].spec_minus(b[j])
            } else if j < a.len() {
                a[j]
            } else {
                b[j].spec_negate()
            },
    )
}

impl<T: MagSquare> Poly<T> {
    /// Every coefficient negated.
    pub fn negate(self) -> (p: Self)
        ensures
            p.wf(),
            p.co@ == Seq::new(self.co@.len(), |j: int| self.co@[j].spec_negate()),
    {
        let mut result: Vec<T> = Vec::new();
        let mut indx: usize = 0;
        while indx < self.co.len()
            invariant
                indx <= self.co@.len(),
                result@ == Seq::new(indx as nat, |j: int| self.co@[j].spec_negate()),
            decreases self.co@.len() - indx,
        {
            result.push(self.co[indx].negate());
            indx = indx + 1;
            assert(result@ =~= Seq::new(indx as nat, |j: int| self.co@[j].spec_negate()));
        }
        Poly::new(result)
    }

    /// The sum, term by term.
    pub fn plus(self, rhs: Self) -> (p: Self)
        ensures
            p.wf(),
            p.co@ == add_seq(self.co@, rhs.co@),
    {
        let a = self.co.len();
        let b = rhs.co.len();
        let n = if a > b {
            a
        } else {
            b
        };
        let mut result: Vec<T> = Vec::new();
        let mut indx: usize = 0;
        while indx < n
            invariant
                a == self.co@.len(),
                b == rhs.co@.len(),
                n == add_seq(self.co@, rhs.co@).len(),
                indx <= n,
                result@ == add_seq(self.co@, rhs.co@).subrange(0, indx as int),
            decreases n - indx,
        {
            let term = if indx < a && indx < b {
                self.co[indx].plus(rhs.co[indx])
            } else if indx < a {
                self.co[indx]
            } else {
                rhs.co[indx]
            };
            result.push(term);
            indx = indx + 1;
            assert(result@ =~= add_seq(self.co@, rhs.co@).subrange(0, indx as int));
        }
        assert(result@ =~= add_seq(self.co@, rhs.co@));
        Poly::new(result)
    }

    /// The difference, term by term.
    pub fn minus(self, rhs: Self) -> (p: Self)
        ensures
            p.wf(),
            p.co@ == sub_seq(self.co@, rhs.co@),
    {
        let a = self.co.len();
        let b = rhs.co.len();
        let n = if a > b {
            a
        } else {
            b
        };
        let mut result: Vec<T> = Vec::new();
        let mut indx: usize = 0;
        while indx < n
            invariant
                a == self.co@.len(),
                b == rhs.co@.len(),
                n == sub_seq(self.co@, rhs.co@).len(),
                indx <= n,
                result@ == sub_seq(self.co@, rhs.co@).subrange(0, indx as int),
            decreases n - indx,
        {
            let term = if indx < a && indx < b {
                self.co[indx].minus(rhs.co[indx])
            } else if indx < a {
                self.co[indx]
            } else {
                rhs.co[indx].negate()
            };
            result.push(term);
            indx = indx + 1;
            assert(result@ =~= sub_seq(self.co@, rhs.co@).subrange(0, indx as int));
        }
        assert(result@ =~= sub_seq(self.co@, rhs.co@));
        Poly::new(result)
    }

    /// The product, each pair of terms added into its degree.
    pub fn times(self, rhs: Self) -> (p: Self)
        requires
            self.wf(),
            rhs.wf(),
            self.le + rhs.le >= 1,
            self.le + rhs.le <= usize::MAX,
        ensures
            p.wf(),
            p.co@ == mul_seq(self.co@, rhs.co@),
    {
        let newlen = self.le + rhs.le - 1;
        let mut product: Vec<T> = Vec::new();
        let mut k: usize = 0;
        while k < newlen
            invariant
                k <= newlen,
                product@ == Seq::new(k as nat, |j: int| T::spec_zero()),
            decreases newlen - k,
        {
            product.push(T::zero());
            k = k + 1;
            assert(product@ =~= Seq::new(k as nat, |j: int| T::spec_zero()));
        }
        let ghost a = self.co@;
        let ghost b = rhs.co@;
        let mut left: usize = 0;
        while left < self.le
            invariant
                self.wf(),
                rhs.wf(),
                a == self.co@,
                b == rhs.co@,
                newlen == a.len() + b.len() - 1,
                left <= self.le,
                product@.len() == newlen,
                forall|j: int| 0 <= j < newlen ==> #[trigger] product@[j] == conv(a, b, j, left as nat),
            decreases self.le - left,
        {
            let mut right: usize = 0;
            while right < rhs.le
                invariant
                    self.wf(),
                    rhs.wf(),
                    a == self.co@,
                    b == rhs.co@,
                    newlen == a.len() + b.len() - 1,
                    left < self.le,
                    right <= rhs.le,
                    product@.len() == newlen,
                    forall|j: int|
                        0 <= j < newlen ==> #[trigger] product@[j] == if left <= j < left + right {
                            conv(a, b, j, (left + 1) as nat)
                        } else {
                            conv(a, b, j, left as nat)
                        },
                decreases rhs.le - right,
            {
                let at = left + right;
                let term = product[at].plus(self.co[left].times(rhs.co[right]));
                product.set(at, term);
                right = right + 1;
            }
            assert forall|j: int| 0 <= j < newlen implies #[trigger] product@[j] == conv(
                a,
                b,
                j,
                (left + 1) as nat,
            ) by {
                assert(conv(a, b, j, (left + 1) as nat) == if 0 <= j - left < b.len() {
                    conv(a, b, j, left as nat).spec_plus(a[left as int].spec_times(b[j - left]))
                } else {
                    conv(a, b, j, left as nat)
                });
            }
            left = left + 1;
        }
        assert(product@ =~= mul_seq(self.co@, rhs.co@));
        Poly::new(product)
    }
}

} // verus!
