//! The bounded driver: step to a target time, exactly.
//!
//! `integrate_to` repeats full-size steps while the next step would still
//! land strictly before the target time, then takes exactly one more step
//! sized `t_end - t` — a short, possibly zero-length, final step — so the
//! returned value corresponds exactly to the target time, never to an
//! overshoot.  The specification functions below pin the result: `walk`
//! gives the state after each committed full step, `cond_at` says that the
//! loop continued there, and `outcome_at` gives the returned value at the
//! iteration where the loop stopped.

use vstd::prelude::*;
use vstd::arithmetic::div_mod::{
    lemma_div_by_multiple, lemma_div_is_ordered, lemma_div_pos_is_pos,
};
use crate::ode::{
    lemma_step_spec_errors, res_model, step_spec, IntegrateError, RateFn, Stepper,
};
use crate::rat::{
    frac_eq, frac_le, frac_lt, frac_wf, frac_zero, lemma_fnorm_props, lemma_frac_eq_trans,
    lemma_frac_lt_left, padd, sadd, ssub, Frac, Rat,
};

verus! {

/// The time `t0 + n * dt`, written over the common denominator.
pub open spec fn time_after(t0: Frac, dt: Frac, n: nat) -> Frac {
    Frac { num: t0.num * dt.den + n * dt.num * t0.den, den: t0.den * dt.den }
}

/// An upper bound on how many full steps of size `dt` fit strictly inside
/// the span from `t0` to `t_end`: the integer part of the span over `dt`.
pub open spec fn full_step_bound(t0: Frac, t_end: Frac, dt: Frac) -> int {
    ((t_end.num * t0.den - t0.num * t_end.den) * dt.den) / (t_end.den * t0.den * dt.num)
}

/// Advancing an exact representation of `t0 + n * dt` by `dt` gives an
/// exact representation of `t0 + (n + 1) * dt`.
#[verifier::rlimit(100)]
pub proof fn lemma_time_advance(t0: Frac, dt: Frac, t: Frac, n: nat)
    requires
        1 <= t0.den,
        1 <= dt.den,
        1 <= t.den,
        frac_eq(t, time_after(t0, dt, n)),
    ensures
        frac_eq(padd(t, dt), time_after(t0, dt, (n + 1) as nat)),
        1 <= padd(t, dt).den,
        1 <= time_after(t0, dt, n).den,
        1 <= time_after(t0, dt, (n + 1) as nat).den,
{
    assert(1 <= t.den * dt.den && 1 <= t0.den * dt.den) by (nonlinear_arith)
        requires
            1 <= t.den,
            1 <= dt.den,
            1 <= t0.den,
    {}
    let a = t.num;
    let b = t.den;
    let c = dt.num;
    let d = dt.den;
    let e = t0.num;
    let g = t0.den;
    let nn = n as int;
    let w = e * d + nn * c * g;
    assert(a * (g * d) == w * b);
    assert((a * d + c * b) * (g * d) == (a * d) * (g * d) + (c * b) * (g * d))
        by (nonlinear_arith)
    {}
    assert((a * d) * (g * d) == (a * (g * d)) * d) by (nonlinear_arith) {}
    assert((a * (g * d)) * d == (w * b) * d) by (nonlinear_arith)
        requires
            a * (g * d) == w * b,
    {}
    assert((w * b) * d == w * (b * d)) by (nonlinear_arith) {}
    assert((c * b) * (g * d) == (c * g) * (b * d)) by (nonlinear_arith) {}
    assert(w * (b * d) + (c * g) * (b * d) == (w + c * g) * (b * d)) by (nonlinear_arith) {}
    assert(w + c * g == e * d + (nn + 1) * c * g) by (nonlinear_arith)
        requires
            w == e * d + nn * c * g,
    {}
    assert((a * d + c * b) * (g * d) == (e * d + (nn + 1) * c * g) * (b * d));
    assert(frac_eq(padd(t, dt), time_after(t0, dt, (n + 1) as nat)));
}

/// The state `(x, t)` after `n` committed full steps of the driver loop:
/// each advances the time by `dt` and the state by one step of the scheme.
pub open spec fn walk<R: RateFn>(
    s: Stepper,
    f: R,
    x0: Frac,
    t0: Frac,
    dt: Frac,
    n: nat,
) -> Result<(Frac, Frac), IntegrateError>
    decreases n,
{
    if n == 0 {
        Ok((x0, t0))
    } else {
        match walk(s, f, x0, t0, dt, (n - 1) as nat) {
            Err(e) => Err(e),
            Ok(p) => match sadd(p.1, dt) {
                None => Err(IntegrateError::ArithmeticOverflow),
                Some(tn) => match step_spec(s, f, p.0, p.1, dt) {
                    Err(e) => Err(e),
                    Ok(x2) => Ok((x2, tn)),
                },
            },
        }
    }
}

/// The driver loop ran a full iteration from the state after `k` steps:
/// the advanced time exists, lands strictly before the target, and the
/// step succeeds.
pub open spec fn cond_at<R: RateFn>(
    s: Stepper,
    f: R,
    x0: Frac,
    t0: Frac,
    t_end: Frac,
    dt: Frac,
    k: nat,
) -> bool {
    match walk(s, f, x0, t0, dt, k) {
        Ok(p) => match sadd(p.1, dt) {
            Some(tn) => frac_lt(tn, t_end) && step_spec(s, f, p.0, p.1, dt) is Ok,
            None => false,
        },
        Err(_) => false,
    }
}

/// The first `n` iterations of the driver loop all ran in full.
pub open spec fn prefix_ok<R: RateFn>(
    s: Stepper,
    f: R,
    x0: Frac,
    t0: Frac,
    t_end: Frac,
    dt: Frac,
    n: nat,
) -> bool {
    &&& walk(s, f, x0, t0, dt, n) is Ok
    &&& forall|k: nat| k < n ==> #[trigger] cond_at(s, f, x0, t0, t_end, dt, k)
}

/// What the driver returns if its loop stops at iteration `n`: `None`
/// while the loop continues there; otherwise either the failure that
/// stopped it, or the final short step `t_end - t` from the state reached.
pub open spec fn outcome_at<R: RateFn>(
    s: Stepper,
    f: R,
    x0: Frac,
    t0: Frac,
    t_end: Frac,
    dt: Frac,
    n: nat,
) -> Option<Result<Frac, IntegrateError>> {
    match walk(s, f, x0, t0, dt, n) {
        Err(_) => None,
        Ok(p) => match sadd(p.1, dt) {
            None => Some(Err(IntegrateError::ArithmeticOverflow)),
            Some(tn) => if frac_lt(tn, t_end) {
                match step_spec(s, f, p.0, p.1, dt) {
                    Err(e) => Some(Err(e)),
                    Ok(x2) => None,
                }
            } else {
                match ssub(t_end, p.1) {
                    None => Some(Err(IntegrateError::ArithmeticOverflow)),
                    Some(df) => Some(step_spec(s, f, p.0, p.1, df)),
                }
            },
        },
    }
}

impl Stepper {
    /// Advance `x0` from time `t0` to exactly `t_end` with full steps of
    /// size `dt` and one final short step.  A step size that is not
    /// positive and a target before the start are each rejected with their
    /// own error, and with no other; any other outcome is the one pinned
    /// by `outcome_at` at the iteration where the loop stopped.
    pub fn integrate_to<R: RateFn>(
        &self,
        f: &R,
        x0: Rat,
        t0: Rat,
        t_end: Rat,
        dt: Rat,
    ) -> (r: Result<Rat, IntegrateError>)
        requires
            f.inv(),
            frac_wf(x0@),
            frac_wf(t0@),
            frac_wf(t_end@),
            frac_wf(dt@),
        ensures
            ((r matches Err(e) && e == IntegrateError::InvalidStepSize) <==> !frac_lt(
                frac_zero(),
                dt@,
            )),
            ((r matches Err(e) && e == IntegrateError::InvalidTimeRange) <==> (frac_lt(
                frac_zero(),
                dt@,
            ) && frac_lt(t_end@, t0@))),
            (frac_lt(frac_zero(), dt@) && !frac_lt(t_end@, t0@) ==> (exists|n: nat|
                #[trigger] prefix_ok(*self, *f, x0@, t0@, t_end@, dt@, n) && outcome_at(
                    *self,
                    *f,
                    x0@,
                    t0@,
                    t_end@,
                    dt@,
                    n,
                ) == Some(res_model(r)))),
            (r matches Ok(v) ==> frac_wf(v@)),
    {
        if !dt.is_positive() {
            return Err(IntegrateError::InvalidStepSize);
        }
        if t_end.lt(&t0) {
            return Err(IntegrateError::InvalidTimeRange);
        }
        let mut x = x0;
        let mut t = t0;
        let ghost mut n: nat = 0;
        proof {
            assert(frac_eq(t0@, time_after(t0@, dt@, 0))) by (nonlinear_arith)
                requires
                    frac_wf(t0@),
                    frac_wf(dt@),
            {}
            assert(1 <= t_end@.den * t0@.den * dt@.num && 0 <= (t_end@.num * t0@.den - t0@.num
                * t_end@.den) * dt@.den) by (nonlinear_arith)
                requires
                    1 <= t_end@.den,
                    1 <= t0@.den,
                    1 <= dt@.den,
                    0 < dt@.num,
                    t0@.num * t_end@.den <= t_end@.num * t0@.den,
            {}
            lemma_div_pos_is_pos(
                (t_end@.num * t0@.den - t0@.num * t_end@.den) * dt@.den,
                t_end@.den * t0@.den * dt@.num,
            );
        }
        loop
            invariant
                f.inv(),
                frac_wf(x0@),
                frac_wf(t0@),
                frac_wf(x@),
                frac_wf(t@),
                frac_wf(dt@),
                frac_wf(t_end@),
                frac_lt(frac_zero(), dt@),
                !frac_lt(t_end@, t0@),
                frac_le(t@, t_end@),
                frac_eq(t@, time_after(t0@, dt@, n)),
                n <= full_step_bound(t0@, t_end@, dt@),
                (walk(*self, *f, x0@, t0@, dt@, n) matches Ok(p) && p.0 == x@ && p.1 == t@),
                forall|k: nat| k < n ==> #[trigger] cond_at(*self, *f, x0@, t0@, t_end@, dt@, k),
            decreases full_step_bound(t0@, t_end@, dt@) - n,
        {
            let tn = match t.add(&dt) {
                Some(v) => v,
                None => {
                    proof {
                        assert(prefix_ok(*self, *f, x0@, t0@, t_end@, dt@, n));
                        assert(outcome_at(*self, *f, x0@, t0@, t_end@, dt@, n) == Some(
                            Err::<Frac, IntegrateError>(IntegrateError::ArithmeticOverflow),
                        ));
                    }
                    return Err(IntegrateError::ArithmeticOverflow);
                },
            };
            if tn.lt(&t_end) {
                let x2 = match self.step_any(f, &x, &t, &dt) {
                    Ok(v) => v,
                    Err(e) => {
                        proof {
                            lemma_step_spec_errors(*self, *f, x@, t@, dt@);
                            assert(prefix_ok(*self, *f, x0@, t0@, t_end@, dt@, n));
                            assert(outcome_at(*self, *f, x0@, t0@, t_end@, dt@, n) == Some(
                                Err::<Frac, IntegrateError>(e),
                            ));
                        }
                        return Err(e);
                    },
                };
                proof {
                    assert(walk(*self, *f, x0@, t0@, dt@, n + 1) matches Ok(p) && p.0 == x2@
                        && p.1 == tn@);
                    assert(cond_at(*self, *f, x0@, t0@, t_end@, dt@, n));
                    assert forall|k: nat| k < n + 1 implies #[trigger] cond_at(
                        *self,
                        *f,
                        x0@,
                        t0@,
                        t_end@,
                        dt@,
                        k,
                    ) by {
                        if k < n {
                        } else {
                            assert(k == n);
                        }
                    }
                    // The advanced time is an exact representation of
                    // `t0 + (n + 1) * dt`, so the step count stays within
                    // its bound.
                    lemma_time_advance(t0@, dt@, t@, n);
                    assert(1 <= padd(t@, dt@).den);
                    lemma_fnorm_props(padd(t@, dt@));
                    assert(frac_eq(tn@, padd(t@, dt@)));
                    lemma_frac_eq_trans(tn@, padd(t@, dt@), time_after(t0@, dt@, (n + 1) as nat));
                    lemma_frac_lt_left(tn@, time_after(t0@, dt@, (n + 1) as nat), t_end@);
                    let pp = t_end@.den * t0@.den * dt@.num;
                    let mm = (t_end@.num * t0@.den - t0@.num * t_end@.den) * dt@.den;
                    assert((n + 1) * pp <= mm && 1 <= pp) by (nonlinear_arith)
                        requires
                            (t0@.num * dt@.den + (n + 1) * dt@.num * t0@.den) * t_end@.den
                                < t_end@.num * (t0@.den * dt@.den),
                            1 <= t_end@.den,
                            1 <= t0@.den,
                            1 <= dt@.den,
                            0 < dt@.num,
                            pp == t_end@.den * t0@.den * dt@.num,
                            mm == (t_end@.num * t0@.den - t0@.num * t_end@.den) * dt@.den,
                    {}
                    lemma_div_is_ordered((n as int + 1) * pp, mm, pp);
                    lemma_div_by_multiple(n as int + 1, pp);
                    assert(n + 1 <= full_step_bound(t0@, t_end@, dt@));
                    n = n + 1;
                }
                x = x2;
                t = tn;
            } else {
                let df = match t_end.sub(&t) {
                    Some(v) => v,
                    None => {
                        proof {
                            assert(prefix_ok(*self, *f, x0@, t0@, t_end@, dt@, n));
                            assert(outcome_at(*self, *f, x0@, t0@, t_end@, dt@, n) == Some(
                                Err::<Frac, IntegrateError>(IntegrateError::ArithmeticOverflow),
                            ));
                        }
                        return Err(IntegrateError::ArithmeticOverflow);
                    },
                };
                let res = self.step_any(f, &x, &t, &df);
                proof {
                    lemma_step_spec_errors(*self, *f, x@, t@, df@);
                    assert(outcome_at(*self, *f, x0@, t0@, t_end@, dt@, n) == Some(
                        step_spec(*self, *f, x@, t@, df@),
                    ));
                    assert(prefix_ok(*self, *f, x0@, t0@, t_end@, dt@, n));
                }
                return res;
            }
        }
    }
}

} // verus!
