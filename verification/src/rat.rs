//! Exact rational scalars.
//!
//! Every time value, step size and state in this library is a rational
//! number held as a signed numerator over a positive denominator, always in
//! lowest terms.  Operations compute the exact mathematical result, reduce
//! it, and report `None` when the reduced result does not fit within the
//! representable range, so no operation ever silently loses precision.

use vstd::prelude::*;
use vstd::arithmetic::div_mod::{
    lemma_div_basics, lemma_div_by_self, lemma_div_nonincreasing,
    lemma_fundamental_div_mod, lemma_fundamental_div_mod_converse_div,
    lemma_fundamental_div_mod_converse_mod,
    lemma_mod_division_less_than_divisor, lemma_mod_multiples_basic, lemma_mod_self_0,
};

verus! {

/// Largest magnitude allowed for a stored numerator or denominator.  The
/// raw numerator of a sum of two in-range rationals stays below twice this
/// bound squared, which fits in an `i128`, so intermediate products never
/// overflow.
pub const BOUND: i128 = 0x7fff_ffff_ffff_ffff;

/// Mathematical model of a rational: an integer numerator over an integer
/// denominator.  A well-formed fraction has a positive denominator and is
/// in lowest terms.
pub struct Frac {
    pub num: int,
    pub den: int,
}

pub open spec fn iabs(a: int) -> int {
    if a < 0 {
        -a
    } else {
        a
    }
}

/// Greatest common divisor by Euclid's recursion, for non-negative inputs.
pub open spec fn gcd(a: int, b: int) -> int
    decreases b when 0 <= b
{
    if b <= 0 {
        a
    } else {
        gcd(b, a % b)
    }
}

/// The fraction `p` in lowest terms.
pub open spec fn fnorm(p: Frac) -> Frac {
    let g = gcd(iabs(p.num), p.den);
    Frac { num: p.num / g, den: p.den / g }
}

/// Both components within the representable range, denominator positive.
pub open spec fn frac_fits(p: Frac) -> bool {
    &&& -(BOUND as int) <= p.num <= BOUND as int
    &&& 1 <= p.den <= BOUND as int
}

/// Well-formed fraction: in range, positive denominator, lowest terms.
pub open spec fn frac_wf(p: Frac) -> bool {
    &&& frac_fits(p)
    &&& fnorm(p) == p
}

pub open spec fn frac_zero() -> Frac {
    Frac { num: 0, den: 1 }
}

/// The whole number `n`, as a fraction.
pub open spec fn frac_int(n: int) -> Frac {
    Frac { num: n, den: 1 }
}

/// Exact (unreduced) sum of two fractions.
pub open spec fn padd(a: Frac, b: Frac) -> Frac {
    Frac { num: a.num * b.den + b.num * a.den, den: a.den * b.den }
}

/// Exact (unreduced) product of two fractions.
pub open spec fn pmul(a: Frac, b: Frac) -> Frac {
    Frac { num: a.num * b.num, den: a.den * b.den }
}

pub open spec fn pneg(a: Frac) -> Frac {
    Frac { num: -a.num, den: a.den }
}

/// Exact (unreduced) quotient `a / b`, with the sign moved into the
/// numerator so the denominator stays positive.
pub open spec fn pdiv(a: Frac, b: Frac) -> Frac {
    if b.num >= 0 {
        Frac { num: a.num * b.den, den: a.den * b.num }
    } else {
        Frac { num: -(a.num * b.den), den: a.den * (-b.num) }
    }
}

/// Value equality of two fractions with positive denominators.
pub open spec fn frac_eq(a: Frac, b: Frac) -> bool {
    a.num * b.den == b.num * a.den
}

/// Value order of two fractions with positive denominators.
pub open spec fn frac_lt(a: Frac, b: Frac) -> bool {
    a.num * b.den < b.num * a.den
}

pub open spec fn frac_le(a: Frac, b: Frac) -> bool {
    a.num * b.den <= b.num * a.den
}

/// What `Rat::add` returns, as a fraction: the reduced exact sum when it
/// fits, nothing otherwise.
pub open spec fn sadd(a: Frac, b: Frac) -> Option<Frac> {
    let r = fnorm(padd(a, b));
    if frac_fits(r) {
        Some(r)
    } else {
        None
    }
}

/// What `Rat::mul` returns, as a fraction.
pub open spec fn smul(a: Frac, b: Frac) -> Option<Frac> {
    let r = fnorm(pmul(a, b));
    if frac_fits(r) {
        Some(r)
    } else {
        None
    }
}

/// What `Rat::sub` returns, as a fraction.
pub open spec fn ssub(a: Frac, b: Frac) -> Option<Frac> {
    sadd(a, pneg(b))
}

/// What `Rat::div` returns, as a fraction: nothing when dividing by zero
/// or when the reduced quotient does not fit.
pub open spec fn sdiv(a: Frac, b: Frac) -> Option<Frac> {
    if b.num == 0 {
        None
    } else {
        let r = fnorm(pdiv(a, b));
        if frac_fits(r) {
            Some(r)
        } else {
            None
        }
    }
}

/// The raw fraction `n / d` (with `d` positive) in lowest terms, when the
/// reduced value fits in range.
pub open spec fn sreduce(n: int, d: int) -> Option<Frac> {
    let q = fnorm(Frac { num: n, den: d });
    if frac_fits(q) {
        Some(q)
    } else {
        None
    }
}

/// What `Rat::new` returns, as a fraction: the sign-adjusted, reduced
/// value of `n / d` when `d` is non-zero and the result fits.
pub open spec fn snew(n: int, d: int) -> Option<Frac> {
    if d == 0 {
        None
    } else {
        let p = if d < 0 {
            Frac { num: -n, den: -d }
        } else {
            Frac { num: n, den: d }
        };
        let r = fnorm(p);
        if frac_fits(r) {
            Some(r)
        } else {
            None
        }
    }
}

/// An exact rational scalar in lowest terms.
#[derive(Clone, Copy, Debug, PartialEq, Eq, Structural)]
pub struct Rat {
    num: i128,
    den: i128,
}

impl View for Rat {
    type V = Frac;

    closed spec fn view(&self) -> Frac {
        Frac { num: self.num as int, den: self.den as int }
    }
}

pub open spec fn opt_model(r: Option<Rat>) -> Option<Frac> {
    match r {
        Some(v) => Some(v@),
        None => None,
    }
}

pub proof fn lemma_gcd_props(a: int, b: int)
    requires
        0 <= a,
        0 <= b,
        1 <= a + b,
    ensures
        1 <= gcd(a, b),
        a % gcd(a, b) == 0,
        b % gcd(a, b) == 0,
        a >= 1 ==> gcd(a, b) <= a,
        b >= 1 ==> gcd(a, b) <= b,
    decreases b,
{
    if b <= 0 {
        assert(gcd(a, b) == a);
        lemma_mod_self_0(a);
        assert(b % a == 0) by {
            lemma_mod_division_less_than_divisor(b, a);
            lemma_fundamental_div_mod(b, a);
        }
    } else {
        let m = a % b;
        lemma_mod_division_less_than_divisor(a, b);
        assert(0 <= m < b);
        lemma_gcd_props(b, m);
        let g = gcd(b, m);
        assert(gcd(a, b) == g);
        lemma_fundamental_div_mod(a, b);
        lemma_fundamental_div_mod(b, g);
        lemma_fundamental_div_mod(m, g);
        let qb = b / g;
        let qm = m / g;
        assert(a == g * (qb * (a / b) + qm)) by (nonlinear_arith)
            requires
                a == b * (a / b) + m,
                b == g * qb + 0,
                m == g * qm + 0,
        {}
        lemma_mod_multiples_basic(qb * (a / b) + qm, g);
        assert(a % g == 0);
        if a >= 1 {
            assert(g <= a) by (nonlinear_arith)
                requires
                    a == g * (qb * (a / b) + qm),
                    1 <= g,
                    1 <= a,
            {}
        }
    }
}

pub proof fn lemma_gcd_scale(k: int, a: int, b: int)
    requires
        1 <= k,
        0 <= a,
        0 <= b,
    ensures
        gcd(k * a, k * b) == k * gcd(a, b),
    decreases b,
{
    if b <= 0 {
        assert(k * b == 0) by (nonlinear_arith)
            requires
                b == 0,
        {}
        assert(gcd(k * a, k * b) == k * a);
    } else {
        lemma_fundamental_div_mod(a, b);
        lemma_mod_division_less_than_divisor(a, b);
        let q = a / b;
        let m = a % b;
        assert(1 <= k * b && k * a == q * (k * b) + k * m && 0 <= k * m < k * b)
            by (nonlinear_arith)
            requires
                a == b * q + m,
                0 <= m < b,
                1 <= k,
                1 <= b,
        {}
        lemma_fundamental_div_mod_converse_mod(k * a, k * b, q, k * m);
        assert((k * a) % (k * b) == k * m);
        assert(gcd(k * a, k * b) == gcd(k * b, k * m));
        lemma_gcd_scale(k, b, m);
        assert(gcd(a, b) == gcd(b, m));
    }
}

pub proof fn lemma_gcd_with_one(a: int)
    requires
        0 <= a,
    ensures
        gcd(a, 1) == 1,
{
    lemma_mod_division_less_than_divisor(a, 1);
    assert(a % 1 == 0);
    assert(gcd(a, 1) == gcd(1, 0));
    assert(gcd(1, 0) == 1);
}

pub proof fn lemma_fnorm_props(p: Frac)
    requires
        1 <= p.den,
    ensures
        fnorm(p).den == p.den / gcd(iabs(p.num), p.den),
        p.num >= 0 ==> fnorm(p).num == iabs(p.num) / gcd(iabs(p.num), p.den),
        p.num < 0 ==> fnorm(p).num == -(iabs(p.num) / gcd(iabs(p.num), p.den)),
        1 <= fnorm(p).den <= p.den,
        fnorm(fnorm(p)) == fnorm(p),
        frac_eq(fnorm(p), p),
        p.num == 0 ==> fnorm(p) == (Frac { num: 0, den: 1 }),
        iabs(fnorm(p).num) <= iabs(p.num),
{
    let m = iabs(p.num);
    let g = gcd(m, p.den);
    lemma_gcd_props(m, p.den);
    lemma_fundamental_div_mod(m, g);
    lemma_fundamental_div_mod(p.den, g);
    let qm = m / g;
    let qd = p.den / g;
    assert(m == g * qm);
    assert(p.den == g * qd);
    // The numerator divides exactly, including the negative case.
    if p.num < 0 {
        assert(p.num == g * (-qm) + 0) by (nonlinear_arith)
            requires
                m == g * qm,
                p.num == -m,
        {}
        lemma_fundamental_div_mod_converse_div(p.num, g, -qm, 0);
        assert(p.num / g == -qm);
    } else {
        assert(fnorm(p).num == qm);
    }
    // Denominator bounds.
    assert(1 <= qd) by (nonlinear_arith)
        requires
            p.den == g * qd,
            1 <= g,
            1 <= p.den,
    {}
    lemma_div_nonincreasing(p.den, g);
    // Non-increasing numerator magnitude.
    assert(0 <= qm && qm <= m) by (nonlinear_arith)
        requires
            m == g * qm,
            1 <= g,
            0 <= m,
    {}
    // Lowest terms: the reduced pair has gcd 1.
    lemma_gcd_scale(g, qm, qd);
    assert(g * gcd(qm, qd) == gcd(m, p.den));
    assert(gcd(qm, qd) == 1) by (nonlinear_arith)
        requires
            g * gcd(qm, qd) == g,
            1 <= g,
    {}
    assert(iabs(fnorm(p).num) == qm);
    lemma_div_basics(qm);
    lemma_div_basics(-qm);
    lemma_div_basics(qd);
    assert(fnorm(fnorm(p)) == fnorm(p));
    // Value preservation.
    assert(fnorm(p).num * p.den == p.num * qd) by (nonlinear_arith)
        requires
            m == g * qm,
            p.den == g * qd,
            fnorm(p).num == (if p.num < 0 { -qm } else { qm }),
            p.num == (if p.num < 0 { -m } else { m as int }),
    {}
    if p.num == 0 {
        assert(m == 0);
        assert(0int % p.den == 0) by {
            lemma_mod_division_less_than_divisor(0, p.den);
            lemma_fundamental_div_mod(0, p.den);
        }
        assert(gcd(0, p.den) == gcd(p.den, 0));
        assert(g == p.den);
        lemma_div_by_self(p.den);
        assert(fnorm(p).den == 1);
        lemma_div_basics(p.den);
        assert(fnorm(p).num == 0int / p.den);
        assert(0int == g * (0int / g));
        assert(0int / p.den == 0) by (nonlinear_arith)
            requires
                0 == p.den * (0int / p.den) + 0int % p.den,
                0int % p.den == 0,
                1 <= p.den,
        {}
    }
}

pub proof fn lemma_wf_gcd_one(p: Frac)
    requires
        frac_wf(p),
    ensures
        gcd(iabs(p.num), p.den) == 1,
{
    let g = gcd(iabs(p.num), p.den);
    lemma_gcd_props(iabs(p.num), p.den);
    lemma_fundamental_div_mod(p.den, g);
    assert(fnorm(p).den == p.den);
    assert(p.den == g * p.den) by {
        assert(p.den == g * (p.den / g));
    }
    assert(g == 1) by (nonlinear_arith)
        requires
            p.den == g * p.den,
            1 <= g,
            1 <= p.den,
    {}
}

/// Value equality is transitive over positive denominators.
pub proof fn lemma_frac_eq_trans(a: Frac, b: Frac, c: Frac)
    requires
        1 <= a.den,
        1 <= b.den,
        1 <= c.den,
        frac_eq(a, b),
        frac_eq(b, c),
    ensures
        frac_eq(a, c),
{
    assert(a.num * c.den == c.num * a.den) by (nonlinear_arith)
        requires
            a.num * b.den == b.num * a.den,
            b.num * c.den == c.num * b.den,
            1 <= a.den,
            1 <= b.den,
            1 <= c.den,
    {}
}

/// A strict value comparison may replace its left side by an equal value.
pub proof fn lemma_frac_lt_left(a: Frac, a2: Frac, b: Frac)
    requires
        1 <= a.den,
        1 <= a2.den,
        1 <= b.den,
        frac_eq(a, a2),
        frac_lt(a, b),
    ensures
        frac_lt(a2, b),
{
    assert(a2.num * b.den < b.num * a2.den) by (nonlinear_arith)
        requires
            a.num * a2.den == a2.num * a.den,
            a.num * b.den < b.num * a.den,
            1 <= a.den,
            1 <= a2.den,
            1 <= b.den,
    {}
}

/// A sum may replace its right operand by an equal value.
pub proof fn lemma_padd_cong_right(a: Frac, b: Frac, b2: Frac)
    requires
        1 <= a.den,
        1 <= b.den,
        1 <= b2.den,
        frac_eq(b, b2),
    ensures
        frac_eq(padd(a, b), padd(a, b2)),
        1 <= padd(a, b).den,
        1 <= padd(a, b2).den,
{
    assert(1 <= a.den * b.den && 1 <= a.den * b2.den) by (nonlinear_arith)
        requires
            1 <= a.den,
            1 <= b.den,
            1 <= b2.den,
    {}
    assert((a.num * b.den + b.num * a.den) * (a.den * b2.den) == (a.num * b.den) * (a.den
        * b2.den) + (b.num * a.den) * (a.den * b2.den)) by (nonlinear_arith)
    {}
    assert((a.num * b2.den + b2.num * a.den) * (a.den * b.den) == (a.num * b2.den) * (a.den
        * b.den) + (b2.num * a.den) * (a.den * b.den)) by (nonlinear_arith)
    {}
    assert((a.num * b.den) * (a.den * b2.den) == (a.num * b2.den) * (a.den * b.den))
        by (nonlinear_arith)
    {}
    assert((b.num * a.den) * (a.den * b2.den) == (b.num * b2.den) * (a.den * a.den))
        by (nonlinear_arith)
    {}
    assert((b.num * b2.den) * (a.den * a.den) == (b2.num * b.den) * (a.den * a.den))
        by (nonlinear_arith)
        requires
            b.num * b2.den == b2.num * b.den,
    {}
    assert((b2.num * b.den) * (a.den * a.den) == (b2.num * a.den) * (a.den * b.den))
        by (nonlinear_arith)
    {}
}

/// A sum may replace its left operand by an equal value.
pub proof fn lemma_padd_cong_left(a: Frac, a2: Frac, b: Frac)
    requires
        1 <= a.den,
        1 <= a2.den,
        1 <= b.den,
        frac_eq(a, a2),
    ensures
        frac_eq(padd(a, b), padd(a2, b)),
        1 <= padd(a, b).den,
        1 <= padd(a2, b).den,
{
    assert(1 <= a.den * b.den && 1 <= a2.den * b.den) by (nonlinear_arith)
        requires
            1 <= a.den,
            1 <= a2.den,
            1 <= b.den,
    {}
    assert((a.num * b.den + b.num * a.den) * (a2.den * b.den) == (a.num * b.den) * (a2.den
        * b.den) + (b.num * a.den) * (a2.den * b.den)) by (nonlinear_arith)
    {}
    assert((a2.num * b.den + b.num * a2.den) * (a.den * b.den) == (a2.num * b.den) * (a.den
        * b.den) + (b.num * a2.den) * (a.den * b.den)) by (nonlinear_arith)
    {}
    assert((a.num * b.den) * (a2.den * b.den) == (a.num * a2.den) * (b.den * b.den))
        by (nonlinear_arith)
    {}
    assert((a.num * a2.den) * (b.den * b.den) == (a2.num * a.den) * (b.den * b.den))
        by (nonlinear_arith)
        requires
            a.num * a2.den == a2.num * a.den,
    {}
    assert((a2.num * a.den) * (b.den * b.den) == (a2.num * b.den) * (a.den * b.den))
        by (nonlinear_arith)
    {}
    assert((b.num * a.den) * (a2.den * b.den) == (b.num * a2.den) * (a.den * b.den))
        by (nonlinear_arith)
    {}
}

/// A product may replace its right operand by an equal value.
pub proof fn lemma_pmul_cong_right(a: Frac, b: Frac, b2: Frac)
    requires
        1 <= a.den,
        1 <= b.den,
        1 <= b2.den,
        frac_eq(b, b2),
    ensures
        frac_eq(pmul(a, b), pmul(a, b2)),
        1 <= pmul(a, b).den,
        1 <= pmul(a, b2).den,
{
    assert(1 <= a.den * b.den && 1 <= a.den * b2.den) by (nonlinear_arith)
        requires
            1 <= a.den,
            1 <= b.den,
            1 <= b2.den,
    {}
    assert((a.num * b.num) * (a.den * b2.den) == (a.num * b2.num) * (a.den * b.den))
        by (nonlinear_arith)
        requires
            b.num * b2.den == b2.num * b.den,
    {}
}

/// A product may replace its left operand by an equal value.
pub proof fn lemma_pmul_cong_left(a: Frac, a2: Frac, b: Frac)
    requires
        1 <= a.den,
        1 <= a2.den,
        1 <= b.den,
        frac_eq(a, a2),
    ensures
        frac_eq(pmul(a, b), pmul(a2, b)),
        1 <= pmul(a, b).den,
        1 <= pmul(a2, b).den,
{
    assert(1 <= a.den * b.den && 1 <= a2.den * b.den) by (nonlinear_arith)
        requires
            1 <= a.den,
            1 <= a2.den,
            1 <= b.den,
    {}
    assert((a.num * b.num) * (a2.den * b.den) == (a2.num * b.num) * (a.den * b.den))
        by (nonlinear_arith)
        requires
            a.num * a2.den == a2.num * a.den,
    {}
}

/// Multiplying by an exact zero gives an exact zero.
pub proof fn lemma_smul_zero(k: Frac)
    requires
        1 <= k.den,
    ensures
        smul(k, frac_zero()) == Some(frac_zero()),
{
    assert(pmul(k, frac_zero()) == (Frac { num: 0, den: k.den }));
    lemma_fnorm_props(Frac { num: 0, den: k.den });
}

/// Adding an exact zero returns a well-formed value unchanged.
pub proof fn lemma_sadd_zero(p: Frac)
    requires
        frac_wf(p),
    ensures
        sadd(p, frac_zero()) == Some(p),
{
    assert(padd(p, frac_zero()) == p);
}

/// Dividing an exact zero by a positive whole number gives an exact zero.
pub proof fn lemma_sdiv_zero(m: int)
    requires
        1 <= m,
    ensures
        sdiv(frac_zero(), frac_int(m)) == Some(frac_zero()),
{
    assert(pdiv(frac_zero(), frac_int(m)) == (Frac { num: 0, den: m }));
    lemma_fnorm_props(Frac { num: 0, den: m });
}

proof fn lemma_mul_bounds(a: int, b: int, m: int)
    requires
        -m <= a <= m,
        -m <= b <= m,
        0 <= m,
    ensures
        -(m * m) <= a * b <= m * m,
{
    assert(-(m * m) <= a * b <= m * m) by (nonlinear_arith)
        requires
            -m <= a <= m,
            -m <= b <= m,
            0 <= m,
    {}
}

fn gcd_u128(a: u128, b: u128) -> (g: u128)
    ensures
        g as int == gcd(a as int, b as int),
{
    let mut x: u128 = a;
    let mut y: u128 = b;
    while y != 0
        invariant
            gcd(x as int, y as int) == gcd(a as int, b as int),
        decreases y,
    {
        let r: u128 = x % y;
        x = y;
        y = r;
    }
    x
}

/// Reduce the raw fraction `num / den` to lowest terms and range-check it.
fn reduce(num: i128, den: i128) -> (r: Option<Rat>)
    requires
        1 <= den,
        -0x7fff_ffff_ffff_ffff_ffff_ffff_ffff_ffff <= num as int,
    ensures
        opt_model(r) == sreduce(num as int, den as int),
        (r matches Some(v) ==> frac_wf(v@)),
{
    let p = Ghost(Frac { num: num as int, den: den as int });
    let m: i128 = if num < 0 {
        -num
    } else {
        num
    };
    assert(m as int == iabs(num as int));
    let g: u128 = gcd_u128(m as u128, den as u128);
    proof {
        lemma_gcd_props(m as int, den as int);
        lemma_fnorm_props(p@);
    }
    let qn: u128 = (m as u128) / g;
    let qd: u128 = (den as u128) / g;
    let qni: i128 = qn as i128;
    let qdi: i128 = qd as i128;
    let rn: i128 = if num < 0 {
        -qni
    } else {
        qni
    };
    assert(rn as int == fnorm(p@).num);
    assert(qdi as int == fnorm(p@).den);
    if -BOUND <= rn && rn <= BOUND && qdi <= BOUND {
        Some(Rat { num: rn, den: qdi })
    } else {
        None
    }
}

impl Rat {
    /// The rational `i`, as `i / 1`.
    pub fn from_int(i: i64) -> (r: Rat)
        requires
            -(BOUND as int) <= i as int <= BOUND as int,
        ensures
            r@ == (Frac { num: i as int, den: 1 }),
            frac_wf(r@),
    {
        proof {
            lemma_gcd_with_one(iabs(i as int));
            lemma_div_basics(i as int);
            lemma_div_basics(1);
        }
        Rat { num: i as i128, den: 1 }
    }

    /// The rational `num / den`, reduced; `None` exactly when `den` is zero
    /// or the reduced value does not fit in range.
    pub fn new(num: i64, den: i64) -> (r: Option<Rat>)
        ensures
            opt_model(r) == snew(num as int, den as int),
            (r matches Some(v) ==> frac_wf(v@)),
    {
        if den == 0 {
            None
        } else {
            let n: i128 = num as i128;
            let d: i128 = den as i128;
            let (n2, d2): (i128, i128) = if d < 0 {
                (-n, -d)
            } else {
                (n, d)
            };
            reduce(n2, d2)
        }
    }

    pub fn numerator(&self) -> (n: i128)
        ensures
            n as int == self@.num,
    {
        self.num
    }

    pub fn denominator(&self) -> (d: i128)
        ensures
            d as int == self@.den,
    {
        self.den
    }

    /// Exact sum, reduced; `None` exactly when the result leaves the range.
    pub fn add(&self, other: &Rat) -> (r: Option<Rat>)
        requires
            frac_wf(self@),
            frac_wf(other@),
        ensures
            opt_model(r) == sadd(self@, other@),
            (r matches Some(v) ==> frac_wf(v@)),
    {
        proof {
            lemma_mul_bounds(self@.num, other@.den, BOUND as int);
            lemma_mul_bounds(other@.num, self@.den, BOUND as int);
            lemma_mul_bounds(self@.den, other@.den, BOUND as int);
        }
        let n1: i128 = self.num * other.den;
        let n2: i128 = other.num * self.den;
        let n: i128 = n1 + n2;
        let d: i128 = self.den * other.den;
        assert(1 <= d as int) by (nonlinear_arith)
            requires
                d as int == self@.den * other@.den,
                1 <= self@.den,
                1 <= other@.den,
        {}
        let r = reduce(n, d);
        assert(Frac { num: n as int, den: d as int } == padd(self@, other@));
        r
    }

    /// Exact negation; always representable.
    pub fn neg(&self) -> (r: Rat)
        requires
            frac_wf(self@),
        ensures
            r@ == pneg(self@),
            frac_wf(r@),
    {
        proof {
            lemma_wf_gcd_one(self@);
            assert(iabs(-self@.num) == iabs(self@.num));
            lemma_div_basics(-self@.num);
            lemma_div_basics(self@.den);
        }
        Rat { num: -self.num, den: self.den }
    }

    /// Exact difference, reduced.
    pub fn sub(&self, other: &Rat) -> (r: Option<Rat>)
        requires
            frac_wf(self@),
            frac_wf(other@),
        ensures
            opt_model(r) == ssub(self@, other@),
            (r matches Some(v) ==> frac_wf(v@)),
    {
        let m = other.neg();
        self.add(&m)
    }

    /// Exact product, reduced.
    pub fn mul(&self, other: &Rat) -> (r: Option<Rat>)
        requires
            frac_wf(self@),
            frac_wf(other@),
        ensures
            opt_model(r) == smul(self@, other@),
            (r matches Some(v) ==> frac_wf(v@)),
    {
        proof {
            lemma_mul_bounds(self@.num, other@.num, BOUND as int);
            lemma_mul_bounds(self@.den, other@.den, BOUND as int);
        }
        let n: i128 = self.num * other.num;
        let d: i128 = self.den * other.den;
        assert(1 <= d as int) by (nonlinear_arith)
            requires
                d as int == self@.den * other@.den,
                1 <= self@.den,
                1 <= other@.den,
        {}
        let r = reduce(n, d);
        assert(Frac { num: n as int, den: d as int } == pmul(self@, other@));
        r
    }

    /// Exact quotient, reduced; `None` exactly when `other` is zero or the
    /// result leaves the range.
    pub fn div(&self, other: &Rat) -> (r: Option<Rat>)
        requires
            frac_wf(self@),
            frac_wf(other@),
        ensures
            opt_model(r) == sdiv(self@, other@),
            (r matches Some(v) ==> frac_wf(v@)),
    {
        if other.num == 0 {
            None
        } else {
            proof {
                lemma_mul_bounds(self@.num, other@.den, BOUND as int);
                lemma_mul_bounds(self@.den, other@.num, BOUND as int);
            }
            let n0: i128 = self.num * other.den;
            let d0: i128 = self.den * other.num;
            let (n, d): (i128, i128) = if other.num > 0 {
                (n0, d0)
            } else {
                (-n0, -d0)
            };
            assert(1 <= d as int) by (nonlinear_arith)
                requires
                    d as int == (if other@.num > 0 {
                        self@.den * other@.num
                    } else {
                        -(self@.den * other@.num)
                    }),
                    1 <= self@.den,
                    other@.num != 0,
            {}
            assert(n as int == pdiv(self@, other@).num && d as int == pdiv(self@, other@).den)
                by (nonlinear_arith)
                requires
                    n0 as int == self@.num * other@.den,
                    d0 as int == self@.den * other@.num,
                    other@.num != 0,
                    n as int == (if other@.num > 0 { n0 as int } else { -(n0 as int) }),
                    d as int == (if other@.num > 0 { d0 as int } else { -(d0 as int) }),
                    pdiv(self@, other@) == (if other@.num >= 0 {
                        Frac { num: self@.num * other@.den, den: self@.den * other@.num }
                    } else {
                        Frac {
                            num: -(self@.num * other@.den),
                            den: self@.den * (-other@.num),
                        }
                    }),
            {}
            let r = reduce(n, d);
            assert(Frac { num: n as int, den: d as int } == pdiv(self@, other@));
            r
        }
    }

    /// Strict value order.
    pub fn lt(&self, other: &Rat) -> (r: bool)
        requires
            frac_wf(self@),
            frac_wf(other@),
        ensures
            r == frac_lt(self@, other@),
    {
        proof {
            lemma_mul_bounds(self@.num, other@.den, BOUND as int);
            lemma_mul_bounds(other@.num, self@.den, BOUND as int);
        }
        self.num * other.den < other.num * self.den
    }

    /// Value order.
    pub fn le(&self, other: &Rat) -> (r: bool)
        requires
            frac_wf(self@),
            frac_wf(other@),
        ensures
            r == frac_le(self@, other@),
    {
        proof {
            lemma_mul_bounds(self@.num, other@.den, BOUND as int);
            lemma_mul_bounds(other@.num, self@.den, BOUND as int);
        }
        self.num * other.den <= other.num * self.den
    }

    /// Value equality.
    pub fn same_value(&self, other: &Rat) -> (r: bool)
        requires
            frac_wf(self@),
            frac_wf(other@),
        ensures
            r == frac_eq(self@, other@),
    {
        proof {
            lemma_mul_bounds(self@.num, other@.den, BOUND as int);
            lemma_mul_bounds(other@.num, self@.den, BOUND as int);
        }
        self.num * other.den == other.num * self.den
    }

    /// Whether the value is strictly greater than zero.
    pub fn is_positive(&self) -> (r: bool)
        requires
            frac_wf(self@),
        ensures
            r == frac_lt(frac_zero(), self@),
    {
        self.num > 0
    }
}

} // verus!
