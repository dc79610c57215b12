//! Exact rational numbers.
//!
//! The template language's fractional values are kept as reduced fractions
//! of two machine integers, so every arithmetic result is exact. A value is
//! always stored in canonical form: positive denominator, numerator and
//! denominator coprime, and zero stored as `0/1`. Operations that would
//! leave the canonical form outside the machine range report failure
//! instead of wrapping.

use vstd::arithmetic::div_mod::{
    lemma_fundamental_div_mod, lemma_mod_self_0, lemma_small_mod,
};
use vstd::arithmetic::mul::lemma_mul_nonzero;
use vstd::prelude::*;

verus! {

/// Greatest common divisor, by Euclid's recursion.
pub open spec fn spec_gcd(a: nat, b: nat) -> nat
    decreases b,
{
    if b == 0 {
        a
    } else {
        spec_gcd(b, a % b)
    }
}

/// The divisor returned by Euclid's recursion is positive whenever one of
/// the arguments is, and it divides both arguments.
pub proof fn lemma_gcd_divides(a: nat, b: nat)
    ensures
        a > 0 || b > 0 ==> spec_gcd(a, b) > 0,
        spec_gcd(a, b) > 0 ==> a % spec_gcd(a, b) == 0,
        spec_gcd(a, b) > 0 ==> b % spec_gcd(a, b) == 0,
    decreases b,
{
    if b == 0 {
        if a > 0 {
            lemma_mod_self_0(a as int);
            lemma_small_mod(0, a);
        }
    } else {
        lemma_gcd_divides(b, a % b);
        let g = spec_gcd(b, a % b);
        assert(g > 0);
        lemma_fundamental_div_mod(a as int, b as int);
        let q = a as int / b as int;
        let r = (a % b) as int;
        // b and r are both multiples of g, hence so is a == q * b + r.
        lemma_fundamental_div_mod(b as int, g as int);
        lemma_fundamental_div_mod(r, g as int);
        let kb = b as int / g as int;
        let kr = r / g as int;
        assert(b as int == kb * g) by {
            assert(b as int == g as int * kb + b as int % g as int);
            lemma_mul_is_commutative(g as int, kb);
        }
        assert(r == kr * g) by {
            assert(r == g as int * kr + r % g as int);
            lemma_mul_is_commutative(g as int, kr);
        }
        assert(a as int == (q * kb + kr) * g) by (nonlinear_arith)
            requires
                a as int == (b as int) * q + r,
                b as int == kb * g,
                r == kr * g,
        ;
        lemma_mod_of_multiple(q * kb + kr, g as int);
    }
}

proof fn lemma_mul_is_commutative(x: int, y: int)
    ensures
        x * y == y * x,
{
}

/// A multiple of a positive number leaves no remainder by it.
proof fn lemma_mod_of_multiple(k: int, g: int)
    requires
        g > 0,
    ensures
        (k * g) % g == 0,
{
    vstd::arithmetic::div_mod::lemma_mod_multiples_basic(k, g);
}

/// A positive number is at least as large as any of its positive divisors.
proof fn lemma_divisor_le(x: nat, g: nat)
    requires
        x > 0,
        g > 0,
        x % g == 0,
    ensures
        g <= x,
{
    if g > x {
        lemma_small_mod(x, g);
    }
}

/// Dividing a number by a positive divisor does not increase it.
proof fn lemma_div_shrinks(x: nat, g: nat)
    requires
        g > 0,
    ensures
        x / g <= x,
        x % g == 0 && x > 0 ==> x / g >= 1,
    decreases x,
{
    vstd::arithmetic::div_mod::lemma_div_nonincreasing(x as int, g as int);
    vstd::arithmetic::div_mod::lemma_div_pos_is_pos(x as int, g as int);
    if x % g == 0 && x > 0 {
        lemma_divisor_le(x, g);
        vstd::arithmetic::div_mod::lemma_div_non_zero(x as int, g as int);
    }
}

/// An exact fraction `num / den` in canonical form: `den >= 1`, and the
/// two parts share no factor. Canonical form makes the derived structural
/// equality coincide with numeric equality.
#[derive(Debug, Clone, Copy, PartialEq, Eq)]
pub struct Rational {
    pub num: i64,
    pub den: i64,
}

impl Rational {
    /// The numerator, as an unbounded integer.
    pub open spec fn numerator(&self) -> int {
        self.num as int
    }

    /// The denominator, as an unbounded integer.
    pub open spec fn denominator(&self) -> int {
        self.den as int
    }

    /// Validity: the denominator is positive.
    pub open spec fn wf(&self) -> bool {
        self.den >= 1
    }
}

/// The canonical form of `num / den`: the sign moves to the numerator, both
/// parts are divided by their greatest common divisor, and the result is
/// `None` when the reduced numerator or denominator falls outside the
/// machine range.
pub open spec fn spec_normalize(num: int, den: int) -> Option<Rational>
    recommends
        den != 0,
{
    let neg = (num < 0) != (den < 0);
    let m = (if num < 0 {
        -num
    } else {
        num
    }) as nat;
    let dm = (if den < 0 {
        -den
    } else {
        den
    }) as nat;
    let g = spec_gcd(m, dm);
    let qn = m / g;
    let qd = dm / g;
    let sn: int = if neg {
        -(qn as int)
    } else {
        qn as int
    };
    if i64::MIN <= sn <= i64::MAX && 1 <= qd <= i64::MAX {
        Some(Rational { num: sn as i64, den: qd as i64 })
    } else {
        None
    }
}

/// A normalized fraction is well formed and stands for the same number as
/// the pair it was made from.
pub proof fn lemma_normalize_exact(num: int, den: int)
    requires
        den != 0,
        spec_normalize(num, den) is Some,
    ensures
        spec_normalize(num, den)->Some_0.wf(),
        spec_normalize(num, den)->Some_0.numerator() * den == num * spec_normalize(
            num,
            den,
        )->Some_0.denominator(),
{
    let neg = (num < 0) != (den < 0);
    let m = (if num < 0 {
        -num
    } else {
        num
    }) as nat;
    let dm = (if den < 0 {
        -den
    } else {
        den
    }) as nat;
    let g = spec_gcd(m, dm);
    lemma_gcd_divides(m, dm);
    assert(g > 0);
    let qn = m / g;
    let qd = dm / g;
    lemma_fundamental_div_mod(m as int, g as int);
    lemma_fundamental_div_mod(dm as int, g as int);
    assert(m as int == qn as int * g as int) by {
        assert(m as int == g as int * (m as int / g as int) + m as int % g as int);
        lemma_mul_is_commutative(g as int, m as int / g as int);
    }
    assert(dm as int == qd as int * g as int) by {
        assert(dm as int == g as int * (dm as int / g as int) + dm as int % g as int);
        lemma_mul_is_commutative(g as int, dm as int / g as int);
    }
    // Cross multiplication survives cancelling the common factor g and
    // moving the shared sign.
    assert(qn as int * (dm as int) == m as int * qd as int) by (nonlinear_arith)
        requires
            m as int == qn as int * g as int,
            dm as int == qd as int * g as int,
    ;
    let r = spec_normalize(num, den)->Some_0;
    if num < 0 {
        if den < 0 {
            assert(r.numerator() * den == num * r.denominator()) by (nonlinear_arith)
                requires
                    r.numerator() == qn as int,
                    r.denominator() == qd as int,
                    m == -num,
                    dm == -den,
                    qn as int * (dm as int) == m as int * qd as int,
            ;
        } else {
            assert(r.numerator() * den == num * r.denominator()) by (nonlinear_arith)
                requires
                    r.numerator() == -(qn as int),
                    r.denominator() == qd as int,
                    m == -num,
                    dm == den,
                    qn as int * (dm as int) == m as int * qd as int,
            ;
        }
    } else {
        if den < 0 {
            assert(r.numerator() * den == num * r.denominator()) by (nonlinear_arith)
                requires
                    r.numerator() == -(qn as int),
                    r.denominator() == qd as int,
                    m == num,
                    dm == -den,
                    qn as int * (dm as int) == m as int * qd as int,
            ;
        } else {
            assert(r.numerator() * den == num * r.denominator()) by (nonlinear_arith)
                requires
                    r.numerator() == qn as int,
                    r.denominator() == qd as int,
                    m == num,
                    dm == den,
                    qn as int * (dm as int) == m as int * qd as int,
            ;
        }
    }
}

/// Euclid's algorithm on machine words.
fn gcd_u128(a: u128, b: u128) -> (r: u128)
    ensures
        r == spec_gcd(a as nat, b as nat),
    decreases b,
{
    if b == 0 {
        a
    } else {
        gcd_u128(b, a % b)
    }
}

impl Rational {
    /// Builds the canonical fraction for `num / den`, reporting `None` when
    /// `den` is zero or the canonical form does not fit the machine range.
    pub fn new(num: i64, den: i64) -> (r: Option<Rational>)
        ensures
            den == 0 ==> r is None,
            den != 0 ==> r == spec_normalize(num as int, den as int),
            den != 0 && r is Some ==> r->Some_0.wf() && r->Some_0.numerator() * den
                == num * r->Some_0.denominator(),
    {
        if den == 0 {
            None
        } else {
            let r = normalize128(num as i128, den as i128);
            proof {
                if r is Some {
                    lemma_normalize_exact(num as int, den as int);
                }
            }
            r
        }
    }

    /// The fraction `n / 1`.
    pub fn from_int(n: i64) -> (r: Rational)
        ensures
            r.wf(),
            r.numerator() == n as int,
            r.denominator() == 1,
    {
        Rational { num: n, den: 1 }
    }

    /// Whether the fraction is zero.
    pub fn is_zero(&self) -> (r: bool)
        ensures
            r == (self.numerator() == 0),
    {
        self.num == 0
    }
}

/// Reduces `num / den` to canonical form. The extremes of the doubled-width
/// range are excluded so that taking absolute values cannot wrap.
pub(crate) fn normalize128(num: i128, den: i128) -> (r: Option<Rational>)
    requires
        den != 0,
        num > i128::MIN,
        den > i128::MIN,
    ensures
        r == spec_normalize(num as int, den as int),
{
    let neg = (num < 0) != (den < 0);
    let m: u128 = if num < 0 {
        (-num) as u128
    } else {
        num as u128
    };
    let dm: u128 = if den < 0 {
        (-den) as u128
    } else {
        den as u128
    };
    let g = gcd_u128(m, dm);
    proof {
        lemma_gcd_divides(m as nat, dm as nat);
    }
    let qn = m / g;
    let qd = dm / g;
    if neg {
        if qn <= 9223372036854775808u128 && qd <= i64::MAX as u128 {
            proof {
                lemma_div_shrinks(dm as nat, g as nat);
            }
            Some(Rational { num: (-(qn as i128)) as i64, den: qd as i64 })
        } else {
            None
        }
    } else {
        if qn <= i64::MAX as u128 && qd <= i64::MAX as u128 {
            proof {
                lemma_div_shrinks(dm as nat, g as nat);
            }
            Some(Rational { num: qn as i64, den: qd as i64 })
        } else {
            None
        }
    }
}



/// The exact sum `a + b`, in canonical form when it fits the machine range.
pub open spec fn spec_add(a: Rational, b: Rational) -> Option<Rational> {
    spec_normalize(
        a.numerator() * b.denominator() + b.numerator() * a.denominator(),
        a.denominator() * b.denominator(),
    )
}

/// The exact difference `a - b`, in canonical form when it fits.
pub open spec fn spec_sub(a: Rational, b: Rational) -> Option<Rational> {
    spec_normalize(
        a.numerator() * b.denominator() - b.numerator() * a.denominator(),
        a.denominator() * b.denominator(),
    )
}

/// The exact product `a * b`, in canonical form when it fits.
pub open spec fn spec_mul(a: Rational, b: Rational) -> Option<Rational> {
    spec_normalize(a.numerator() * b.numerator(), a.denominator() * b.denominator())
}

/// The exact quotient `a / b` for nonzero `b`, in canonical form when it fits.
pub open spec fn spec_div(a: Rational, b: Rational) -> Option<Rational> {
    spec_normalize(a.numerator() * b.denominator(), a.denominator() * b.numerator())
}

/// The exact negation `-a`, in canonical form when it fits.
pub open spec fn spec_neg(a: Rational) -> Option<Rational> {
    spec_normalize(-a.numerator(), a.denominator())
}

/// Bounds the product of two machine-word factors.
proof fn lemma_word_product_bound(x: int, y: int)
    requires
        -0x8000000000000000 <= x <= 0x7fffffffffffffff,
        -0x8000000000000000 <= y <= 0x7fffffffffffffff,
    ensures
        -0x40000000000000000000000000000000 <= x * y <= 0x40000000000000000000000000000000,
{
    assert(-0x40000000000000000000000000000000 <= x * y
        <= 0x40000000000000000000000000000000) by (nonlinear_arith)
        requires
            -0x8000000000000000 <= x <= 0x7fffffffffffffff,
            -0x8000000000000000 <= y <= 0x7fffffffffffffff,
    ;
}

/// Bounds the product of a machine-word numerator with a denominator
/// strictly below the top of the range. Two such products can be added
/// without leaving the doubled-width range.
proof fn lemma_num_den_product_bound(x: int, y: int)
    requires
        -0x8000000000000000 <= x <= 0x7fffffffffffffff,
        -0x7fffffffffffffff <= y <= 0x7fffffffffffffff,
    ensures
        -0x3fffffffffffffff8000000000000000 <= x * y <= 0x3fffffffffffffff8000000000000000,
{
    assert(-0x3fffffffffffffff8000000000000000 <= x * y
        <= 0x3fffffffffffffff8000000000000000) by (nonlinear_arith)
        requires
            -0x8000000000000000 <= x <= 0x7fffffffffffffff,
            -0x7fffffffffffffff <= y <= 0x7fffffffffffffff,
    ;
}

/// The product of two positive machine words is positive.
proof fn lemma_pos_product(x: int, y: int)
    requires
        x >= 1,
        y >= 1,
    ensures
        x * y >= 1,
{
    assert(x * y >= 1) by (nonlinear_arith)
        requires
            x >= 1,
            y >= 1,
    ;
}

/// The product of two nonzero factors is nonzero.
proof fn lemma_nonzero_product(x: int, y: int)
    requires
        x != 0,
        y != 0,
    ensures
        x != 0 ==> y != 0 ==> x * y != 0,
{
    lemma_mul_nonzero(x, y);
}

impl Rational {
    /// Exact addition. `None` only when the reduced result leaves the
    /// machine range.
    pub fn add(&self, other: &Rational) -> (r: Option<Rational>)
        requires
            self.wf(),
            other.wf(),
        ensures
            r == spec_add(*self, *other),
            r is Some ==> r->Some_0.wf() && r->Some_0.numerator() * (self.denominator()
                * other.denominator()) == (self.numerator() * other.denominator()
                + other.numerator() * self.denominator()) * r->Some_0.denominator(),
    {
        proof {
            lemma_num_den_product_bound(self.numerator(), other.denominator());
            lemma_num_den_product_bound(other.numerator(), self.denominator());
            lemma_word_product_bound(self.denominator(), other.denominator());
            lemma_pos_product(self.denominator(), other.denominator());
        }
        let n = self.num as i128 * other.den as i128 + other.num as i128 * self.den as i128;
        let d = self.den as i128 * other.den as i128;
        let r = normalize128(n, d);
        proof {
            if r is Some {
                lemma_normalize_exact(n as int, d as int);
            }
        }
        r
    }

    /// Exact subtraction. `None` only when the reduced result leaves the
    /// machine range.
    pub fn sub(&self, other: &Rational) -> (r: Option<Rational>)
        requires
            self.wf(),
            other.wf(),
        ensures
            r == spec_sub(*self, *other),
            r is Some ==> r->Some_0.wf() && r->Some_0.numerator() * (self.denominator()
                * other.denominator()) == (self.numerator() * other.denominator()
                - other.numerator() * self.denominator()) * r->Some_0.denominator(),
    {
        proof {
            lemma_num_den_product_bound(self.numerator(), other.denominator());
            lemma_num_den_product_bound(other.numerator(), self.denominator());
            lemma_word_product_bound(self.denominator(), other.denominator());
            lemma_pos_product(self.denominator(), other.denominator());
        }
        let n = self.num as i128 * other.den as i128 - other.num as i128 * self.den as i128;
        let d = self.den as i128 * other.den as i128;
        let r = normalize128(n, d);
        proof {
            if r is Some {
                lemma_normalize_exact(n as int, d as int);
            }
        }
        r
    }

    /// Exact multiplication. `None` only when the reduced result leaves the
    /// machine range.
    pub fn mul(&self, other: &Rational) -> (r: Option<Rational>)
        requires
            self.wf(),
            other.wf(),
        ensures
            r == spec_mul(*self, *other),
            r is Some ==> r->Some_0.wf() && r->Some_0.numerator() * (self.denominator()
                * other.denominator()) == (self.numerator() * other.numerator())
                * r->Some_0.denominator(),
    {
        proof {
            lemma_word_product_bound(self.numerator(), other.numerator());
            lemma_word_product_bound(self.denominator(), other.denominator());
            lemma_pos_product(self.denominator(), other.denominator());
        }
        let n = self.num as i128 * other.num as i128;
        let d = self.den as i128 * other.den as i128;
        let r = normalize128(n, d);
        proof {
            if r is Some {
                lemma_normalize_exact(n as int, d as int);
            }
        }
        r
    }

    /// Exact division by a nonzero fraction. `None` only when the reduced
    /// result leaves the machine range.
    pub fn div(&self, other: &Rational) -> (r: Option<Rational>)
        requires
            self.wf(),
            other.wf(),
            other.numerator() != 0,
        ensures
            r == spec_div(*self, *other),
            r is Some ==> r->Some_0.wf() && r->Some_0.numerator() * (self.denominator()
                * other.numerator()) == (self.numerator() * other.denominator())
                * r->Some_0.denominator(),
    {
        proof {
            lemma_num_den_product_bound(self.numerator(), other.denominator());
            lemma_num_den_product_bound(other.numerator(), self.denominator());
            lemma_nonzero_product(self.denominator(), other.numerator());
        }
        let n = self.num as i128 * other.den as i128;
        let d = self.den as i128 * other.num as i128;
        let r = normalize128(n, d);
        proof {
            if r is Some {
                lemma_normalize_exact(n as int, d as int);
            }
        }
        r
    }

    /// Exact negation. `None` only for the one numerator whose negation
    /// leaves the machine range.
    pub fn neg(&self) -> (r: Option<Rational>)
        requires
            self.wf(),
        ensures
            r == spec_neg(*self),
            r is Some ==> r->Some_0.wf() && r->Some_0.numerator() * self.denominator()
                == -self.numerator() * r->Some_0.denominator(),
    {
        let r = normalize128(-(self.num as i128), self.den as i128);
        proof {
            if r is Some {
                lemma_normalize_exact(-self.numerator(), self.denominator());
            }
        }
        r
    }

    /// Numeric equality, by cross multiplication.
    pub fn eq_value(&self, other: &Rational) -> (r: bool)
        requires
            self.wf(),
            other.wf(),
        ensures
            r == (self.numerator() * other.denominator() == other.numerator()
                * self.denominator()),
    {
        proof {
            lemma_num_den_product_bound(self.numerator(), other.denominator());
            lemma_num_den_product_bound(other.numerator(), self.denominator());
        }
        self.num as i128 * other.den as i128 == other.num as i128 * self.den as i128
    }

    /// Numeric strict order, by cross multiplication.
    pub fn lt(&self, other: &Rational) -> (r: bool)
        requires
            self.wf(),
            other.wf(),
        ensures
            r == (self.numerator() * other.denominator() < other.numerator()
                * self.denominator()),
    {
        proof {
            lemma_num_den_product_bound(self.numerator(), other.denominator());
            lemma_num_den_product_bound(other.numerator(), self.denominator());
        }
        (self.num as i128 * other.den as i128) < (other.num as i128 * self.den as i128)
    }

    /// Numeric non-strict order, by cross multiplication.
    pub fn le(&self, other: &Rational) -> (r: bool)
        requires
            self.wf(),
            other.wf(),
        ensures
            r == (self.numerator() * other.denominator() <= other.numerator()
                * self.denominator()),
    {
        proof {
            lemma_num_den_product_bound(self.numerator(), other.denominator());
            lemma_num_den_product_bound(other.numerator(), self.denominator());
        }
        (self.num as i128 * other.den as i128) <= (other.num as i128 * self.den as i128)
    }

    /// The canonical fraction for `mantissa / pow10`, as written in a
    /// decimal literal. Reduction only shrinks the two parts, so the
    /// canonical form always fits.
    pub fn from_decimal(mantissa: i64, pow10: i64) -> (r: Rational)
        requires
            mantissa >= 0,
            pow10 >= 1,
        ensures
            spec_normalize(mantissa as int, pow10 as int) == Some(r),
            r.wf(),
            r.numerator() * pow10 == mantissa * r.denominator(),
    {
        proof {
            let m = mantissa as nat;
            let dm = pow10 as nat;
            let g = spec_gcd(m, dm);
            lemma_gcd_divides(m, dm);
            lemma_div_shrinks(m, g);
            lemma_div_shrinks(dm, g);
        }
        let r = normalize128(mantissa as i128, pow10 as i128);
        proof {
            lemma_normalize_exact(mantissa as int, pow10 as int);
        }
        match r {
            Some(v) => v,
            None => Rational { num: 0, den: 1 },
        }
    }
}

} // verus!
