//! Laws of the integrator, stated and proved against the stepping
//! specifications.

use vstd::prelude::*;
use crate::driver::{cond_at, lemma_time_advance, outcome_at, prefix_ok, time_after, walk};
use crate::traj::Trajectory;
use crate::ode::{
    euler_spec, rk4_spec, rk4_sum, sscale_add, step_spec, IntegrateError, RateFn, Stepper,
};
use crate::rat::{
    frac_eq, frac_fits, frac_int, frac_lt, frac_wf, frac_zero, lemma_fnorm_props,
    lemma_frac_eq_trans, lemma_frac_lt_left, lemma_padd_cong_left, lemma_padd_cong_right,
    lemma_pmul_cong_left, lemma_pmul_cong_right, lemma_sadd_zero, lemma_sdiv_zero,
    lemma_smul_zero, padd, pdiv, pmul, sadd, sdiv, smul, ssub, Frac,
};

verus! {

/// The weighted stencil sum, when it exists, is in range.
proof fn lemma_rk4_sum_fits(k1: Frac, k2: Frac, k3: Frac, k4: Frac, sum: Frac)
    requires
        rk4_sum(k1, k2, k3, k4) == Some(sum),
    ensures
        frac_fits(sum),
{
    match smul(k2, frac_int(2)) {
        None => {
            assert(false);
        },
        Some(s1) => {
            match sadd(k1, s1) {
                None => {
                    assert(false);
                },
                Some(s2) => {
                    match smul(k3, frac_int(2)) {
                        None => {
                            assert(false);
                        },
                        Some(s3) => {
                            match sadd(s2, s3) {
                                None => {
                                    assert(false);
                                },
                                Some(s4) => {
                                    assert(sadd(s4, k4) == Some(sum));
                                },
                            }
                        },
                    }
                },
            }
        },
    }
}

/// A zero-length step leaves a well-formed state unchanged: the Euler rule
/// returns it outright, and the Runge-Kutta rule returns it unless the
/// weighted stencil sum leaves the representable range.
pub proof fn lemma_zero_step<R: RateFn>(s: Stepper, f: R, x0: Frac, t0: Frac)
    requires
        frac_wf(x0),
        frac_wf(t0),
        f.rate_ok(t0, x0),
        frac_wf(f.rate_of(t0, x0)),
    ensures
        step_spec(s, f, x0, t0, frac_zero()) == Ok::<Frac, IntegrateError>(x0) || step_spec(
            s,
            f,
            x0,
            t0,
            frac_zero(),
        ) == Err::<Frac, IntegrateError>(IntegrateError::ArithmeticOverflow),
        s == Stepper::ExplicitEuler ==> step_spec(s, f, x0, t0, frac_zero()) == Ok::<
            Frac,
            IntegrateError,
        >(x0),
{
    let k = f.rate_of(t0, x0);
    lemma_smul_zero(k);
    lemma_sadd_zero(x0);
    lemma_sadd_zero(t0);
    assert(sscale_add(x0, k, frac_zero()) == Some(x0));
    assert(euler_spec(f, x0, t0, frac_zero()) == Ok::<Frac, IntegrateError>(x0));
    lemma_sdiv_zero(2);
    lemma_sdiv_zero(6);
    // With a zero half-step and a zero full step, every stencil point is
    // the initial point itself.
    assert(sadd(t0, frac_zero()) == Some(t0));
    match rk4_sum(k, k, k, k) {
        None => {
            assert(rk4_spec(f, x0, t0, frac_zero()) == Err::<Frac, IntegrateError>(
                IntegrateError::ArithmeticOverflow,
            ));
        },
        Some(sum) => {
            lemma_rk4_sum_fits(k, k, k, k, sum);
            lemma_smul_zero(sum);
            assert(rk4_spec(f, x0, t0, frac_zero()) == Ok::<Frac, IntegrateError>(x0));
        },
    }
}

/// Driving across a zero-length span returns the initial state unchanged,
/// for any stepper: with the target equal to the start, no full step runs
/// and the final short step has length zero.  The one other possible
/// outcome is an overflow report, never a different state.
pub proof fn lemma_zero_span<R: RateFn>(
    s: Stepper,
    f: R,
    x0: Frac,
    t0: Frac,
    dt: Frac,
    n: nat,
    res: Result<Frac, IntegrateError>,
)
    requires
        frac_wf(x0),
        frac_wf(t0),
        frac_wf(dt),
        frac_lt(frac_zero(), dt),
        f.rate_ok(t0, x0),
        frac_wf(f.rate_of(t0, x0)),
        prefix_ok(s, f, x0, t0, t0, dt, n),
        outcome_at(s, f, x0, t0, t0, dt, n) == Some(res),
    ensures
        res == Ok::<Frac, IntegrateError>(x0) || res == Err::<Frac, IntegrateError>(
            IntegrateError::ArithmeticOverflow,
        ),
        s == Stepper::ExplicitEuler && sadd(t0, dt) is Some ==> res == Ok::<
            Frac,
            IntegrateError,
        >(x0),
{
    assert(1 <= t0.den * dt.den) by (nonlinear_arith)
        requires
            1 <= t0.den,
            1 <= dt.den,
    {}
    assert(1 <= padd(t0, dt).den);
    // A first full step is impossible: the advanced time lies strictly
    // after the start, which is already the target.
    if n >= 1 {
        assert(cond_at(s, f, x0, t0, t0, dt, 0));
        match sadd(t0, dt) {
            None => {
                assert(false);
            },
            Some(tn) => {
                lemma_fnorm_props(padd(t0, dt));
                lemma_frac_lt_left(tn, padd(t0, dt), t0);
                assert(false) by (nonlinear_arith)
                    requires
                        (t0.num * dt.den + dt.num * t0.den) * t0.den < t0.num * (t0.den * dt.den),
                        0 < dt.num,
                        1 <= t0.den,
                {}
            },
        }
    }
    assert(n == 0);
    match sadd(t0, dt) {
        None => {
            assert(res == Err::<Frac, IntegrateError>(IntegrateError::ArithmeticOverflow));
        },
        Some(tn) => {
            if frac_lt(tn, t0) {
                lemma_fnorm_props(padd(t0, dt));
                lemma_frac_lt_left(tn, padd(t0, dt), t0);
                assert(false) by (nonlinear_arith)
                    requires
                        (t0.num * dt.den + dt.num * t0.den) * t0.den < t0.num * (t0.den * dt.den),
                        0 < dt.num,
                        1 <= t0.den,
                {}
            }
            // The final short step has exactly length zero.
            let z = padd(t0, crate::rat::pneg(t0));
            assert(t0.num * t0.den + (-t0.num) * t0.den == 0 && 1 <= t0.den * t0.den)
                by (nonlinear_arith)
                requires
                    1 <= t0.den,
            {}
            assert(z.num == 0 && 1 <= z.den);
            lemma_fnorm_props(z);
            assert(ssub(t0, t0) == Some(frac_zero()));
            assert(res == step_spec(s, f, x0, t0, frac_zero()));
            lemma_zero_step(s, f, x0, t0);
        },
    }
}

/// One step under a constant rate `c` advances the state by exactly
/// `c * dt`, whichever scheme is chosen.
proof fn lemma_constant_step<R: RateFn>(
    s: Stepper,
    f: R,
    c: Frac,
    x: Frac,
    t: Frac,
    dt: Frac,
    v: Frac,
)
    requires
        frac_wf(c),
        frac_wf(dt),
        1 <= x.den,
        1 <= t.den,
        forall|t2: Frac, x2: Frac| #[trigger] f.rate_ok(t2, x2),
        forall|t2: Frac, x2: Frac| #[trigger] f.rate_of(t2, x2) == c,
        step_spec(s, f, x, t, dt) == Ok::<Frac, IntegrateError>(v),
    ensures
        frac_eq(v, padd(x, pmul(c, dt))),
        frac_fits(v),
        1 <= pmul(c, dt).den,
{
    assert(1 <= c.den * dt.den) by (nonlinear_arith)
        requires
            1 <= c.den,
            1 <= dt.den,
    {}
    assert(1 <= pmul(c, dt).den);
    match s {
        Stepper::ExplicitEuler => {
            match smul(c, dt) {
                None => {
                    assert(false);
                },
                Some(m1) => {
                    lemma_fnorm_props(pmul(c, dt));
                    match sadd(x, m1) {
                        None => {
                            assert(false);
                        },
                        Some(vv) => {
                            assert(vv == v);
                            lemma_padd_cong_right(x, m1, pmul(c, dt));
                            lemma_fnorm_props(padd(x, m1));
                            lemma_frac_eq_trans(v, padd(x, m1), padd(x, pmul(c, dt)));
                        },
                    }
                },
            }
        },
        Stepper::RungeKutta4 => {
            lemma_constant_rk4(f, c, x, t, dt, v);
        },
    }
}


/// The Runge-Kutta step under a constant rate `c` advances the state by
/// exactly `c * dt`: all four slopes equal `c`, their weighted sum is
/// `6 * c`, and the increment is `6 * c * (dt / 6)`.
#[verifier::rlimit(100)]
proof fn lemma_constant_rk4<R: RateFn>(f: R, c: Frac, x: Frac, t: Frac, dt: Frac, v: Frac)
    requires
        frac_wf(c),
        frac_wf(dt),
        1 <= x.den,
        1 <= t.den,
        forall|t2: Frac, x2: Frac| #[trigger] f.rate_ok(t2, x2),
        forall|t2: Frac, x2: Frac| #[trigger] f.rate_of(t2, x2) == c,
        rk4_spec(f, x, t, dt) == Ok::<Frac, IntegrateError>(v),
    ensures
        frac_eq(v, padd(x, pmul(c, dt))),
        frac_fits(v),
{
    let w2 = Frac { num: c.num * 2, den: c.den };
    let w3 = Frac { num: c.num * 3, den: c.den };
    let w5 = Frac { num: c.num * 5, den: c.den };
    let w6 = Frac { num: c.num * 6, den: c.den };
    let wsixth = Frac { num: dt.num, den: dt.den * 6 };
    assert(1 <= dt.den * 6);
    assert(1 <= c.den * dt.den) by (nonlinear_arith)
        requires
            1 <= c.den,
            1 <= dt.den,
    {}
    assert(1 <= pmul(c, dt).den);
    match smul(c, frac_int(2)) {
        None => {
            assert(false);
        },
        Some(s1) => {
            assert(pmul(c, frac_int(2)) == w2);
            lemma_fnorm_props(w2);
            assert(frac_eq(s1, w2));
            match sadd(c, s1) {
                None => {
                    assert(false);
                },
                Some(s2) => {
                    lemma_padd_cong_right(c, s1, w2);
                    lemma_fnorm_props(padd(c, s1));
                    assert((c.num * c.den + (c.num * 2) * c.den) * c.den == (c.num * 3) * (c.den
                        * c.den)) by (nonlinear_arith)
                    {}
                    assert(frac_eq(padd(c, w2), w3));
                    lemma_frac_eq_trans(s2, padd(c, s1), padd(c, w2));
                    lemma_frac_eq_trans(s2, padd(c, w2), w3);
                    match sadd(s2, s1) {
                        None => {
                            assert(false);
                        },
                        Some(s4) => {
                            lemma_padd_cong_left(s2, w3, s1);
                            lemma_padd_cong_right(w3, s1, w2);
                            lemma_fnorm_props(padd(s2, s1));
                            assert(((c.num * 3) * c.den + (c.num * 2) * c.den) * c.den == (c.num
                                * 5) * (c.den * c.den)) by (nonlinear_arith)
                            {}
                            assert(frac_eq(padd(w3, w2), w5));
                            lemma_frac_eq_trans(s4, padd(s2, s1), padd(w3, s1));
                            lemma_frac_eq_trans(s4, padd(w3, s1), padd(w3, w2));
                            lemma_frac_eq_trans(s4, padd(w3, w2), w5);
                            match sadd(s4, c) {
                                None => {
                                    assert(false);
                                },
                                Some(sum) => {
                                    lemma_padd_cong_left(s4, w5, c);
                                    lemma_fnorm_props(padd(s4, c));
                                    assert(((c.num * 5) * c.den + c.num * c.den) * c.den == (c.num
                                        * 6) * (c.den * c.den)) by (nonlinear_arith)
                                    {}
                                    assert(frac_eq(padd(w5, c), w6));
                                    lemma_frac_eq_trans(sum, padd(s4, c), padd(w5, c));
                                    lemma_frac_eq_trans(sum, padd(w5, c), w6);
                                    match sdiv(dt, frac_int(6)) {
                                        None => {
                                            assert(false);
                                        },
                                        Some(sixth) => {
                                            assert(pdiv(dt, frac_int(6)) == wsixth);
                                            lemma_fnorm_props(wsixth);
                                            assert(frac_eq(sixth, wsixth));
                                            match smul(sum, sixth) {
                                                None => {
                                                    assert(false);
                                                },
                                                Some(incr) => {
                                                    lemma_pmul_cong_left(sum, w6, sixth);
                                                    lemma_pmul_cong_right(w6, sixth, wsixth);
                                                    lemma_fnorm_props(pmul(sum, sixth));
                                                    assert(((c.num * 6) * dt.num) * (c.den
                                                        * dt.den) == (c.num * dt.num) * (c.den
                                                        * (dt.den * 6))) by (nonlinear_arith)
                                                    {}
                                                    assert(frac_eq(pmul(w6, wsixth), pmul(c, dt)));
                                                    lemma_frac_eq_trans(
                                                        incr,
                                                        pmul(sum, sixth),
                                                        pmul(w6, sixth),
                                                    );
                                                    lemma_frac_eq_trans(
                                                        incr,
                                                        pmul(w6, sixth),
                                                        pmul(w6, wsixth),
                                                    );
                                                    lemma_frac_eq_trans(
                                                        incr,
                                                        pmul(w6, wsixth),
                                                        pmul(c, dt),
                                                    );
                                                    match sadd(x, incr) {
                                                        None => {
                                                            assert(false);
                                                        },
                                                        Some(vv) => {
                                                            assert(vv == v);
                                                            lemma_padd_cong_right(
                                                                x,
                                                                incr,
                                                                pmul(c, dt),
                                                            );
                                                            lemma_fnorm_props(padd(x, incr));
                                                            lemma_frac_eq_trans(
                                                                v,
                                                                padd(x, incr),
                                                                padd(x, pmul(c, dt)),
                                                            );
                                                        },
                                                    }
                                                },
                                            }
                                        },
                                    }
                                },
                            }
                        },
                    }
                },
            }
        },
    }
}

/// Exactness for constant rates: under `f(t, x) = c`, after `n` full steps
/// of size `dt` the state is exactly `x0 + c * (n * dt)` and the time is
/// exactly `t0 + n * dt`, whichever scheme is chosen.
pub proof fn lemma_constant_rate_exact<R: RateFn>(
    s: Stepper,
    f: R,
    c: Frac,
    x0: Frac,
    t0: Frac,
    dt: Frac,
    n: nat,
    xn: Frac,
    tn: Frac,
)
    requires
        frac_wf(x0),
        frac_wf(t0),
        frac_wf(dt),
        frac_wf(c),
        forall|t2: Frac, x2: Frac| #[trigger] f.rate_ok(t2, x2),
        forall|t2: Frac, x2: Frac| #[trigger] f.rate_of(t2, x2) == c,
        walk(s, f, x0, t0, dt, n) == Ok::<(Frac, Frac), IntegrateError>((xn, tn)),
    ensures
        frac_eq(xn, padd(x0, pmul(c, pmul(frac_int(n as int), dt)))),
        frac_eq(tn, padd(t0, pmul(frac_int(n as int), dt))),
        1 <= xn.den,
        1 <= tn.den,
    decreases n,
{
    let cd = pmul(c, dt);
    let dd = c.den * dt.den;
    assert(1 <= dd) by (nonlinear_arith)
        requires
            dd == c.den * dt.den,
            1 <= c.den,
            1 <= dt.den,
    {}
    assert(1 <= cd.den);
    if n == 0 {
        assert(xn == x0 && tn == t0);
        let z0 = pmul(frac_int(0), dt);
        assert(frac_int(0) == (Frac { num: 0, den: 1 }));
        assert(z0 == (Frac { num: 0 * dt.num, den: 1 * dt.den }));
        assert(z0.num == 0 && z0.den == dt.den);
        let z1 = pmul(c, z0);
        assert(z1.num == 0 && z1.den == c.den * dt.den);
        let z2 = padd(x0, z1);
        assert(z2.num == x0.num * (c.den * dt.den) && z2.den == x0.den * (c.den * dt.den));
        assert(x0.num * (x0.den * (c.den * dt.den)) == (x0.num * (c.den * dt.den)) * x0.den)
            by (nonlinear_arith)
        {}
        assert(frac_eq(x0, padd(x0, pmul(c, pmul(frac_int(0), dt)))));
        assert(t0.num * (t0.den * dt.den) == (t0.num * dt.den) * t0.den) by (nonlinear_arith) {}
        assert(frac_eq(t0, padd(t0, pmul(frac_int(0), dt))));
    } else {
        let m = (n - 1) as nat;
        match walk(s, f, x0, t0, dt, m) {
            Err(_) => {
                assert(false);
            },
            Ok(p) => {
                let xp = p.0;
                let tp = p.1;
                lemma_constant_rate_exact(s, f, c, x0, t0, dt, m, xp, tp);
                match sadd(tp, dt) {
                    None => {
                        assert(false);
                    },
                    Some(t2) => {
                        assert(t2 == tn);
                        assert(step_spec(s, f, xp, tp, dt) == Ok::<Frac, IntegrateError>(xn));
                        lemma_constant_step(s, f, c, xp, tp, dt, xn);
                        // The state follows the closed form with step c*dt.
                        let mi = m as int;
                        let ni = n as int;
                        assert(c.num * (mi * dt.num) == mi * (c.num * dt.num))
                            by (nonlinear_arith)
                        {}
                        assert(padd(x0, pmul(c, pmul(frac_int(mi), dt))) == time_after(
                            x0,
                            cd,
                            m,
                        ));
                        lemma_time_advance(x0, cd, xp, m);
                        assert((m + 1) as nat == n);
                        lemma_frac_eq_trans(xn, padd(xp, cd), time_after(x0, cd, n));
                        assert(c.num * (ni * dt.num) == ni * (c.num * dt.num))
                            by (nonlinear_arith)
                        {}
                        assert(padd(x0, pmul(c, pmul(frac_int(ni), dt))) == time_after(
                            x0,
                            cd,
                            n,
                        ));
                        // The time follows the closed form with step dt.
                        assert(padd(t0, pmul(frac_int(mi), dt)) == time_after(t0, dt, m));
                        lemma_time_advance(t0, dt, tp, m);
                        lemma_fnorm_props(padd(tp, dt));
                        lemma_frac_eq_trans(tn, padd(tp, dt), time_after(t0, dt, n));
                        assert(padd(t0, pmul(frac_int(ni), dt)) == time_after(t0, dt, n));
                    },
                }
            },
        }
    }
}

/// Trajectory determinism: what `next` returns, and the state it leaves
/// behind, are functions of the cursor state alone (the `ensures` of
/// `Trajectory::next` pins both), so two cursors built from equal
/// arguments produce identical sequences element by element.
pub proof fn lemma_trajectory_deterministic<R: RateFn>(a: Trajectory<R>, b: Trajectory<R>)
    requires
        a.scheme == b.scheme,
        a.f == b.f,
        a.x == b.x,
        a.t == b.t,
        a.dt == b.dt,
    ensures
        a.next_spec() == b.next_spec(),
{
    assert(a == b);
}

} // verus!
