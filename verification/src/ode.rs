//! Time stepping: schemes, trajectories, and the bounded driver.
//!
//! A `Stepper` advances a state by one step of a chosen scheme.  A
//! `Trajectory` wraps a stepper into a lazy, pull-based cursor over the
//! successive states.  `integrate_to` repeats full-size steps and finishes
//! with one exactly-sized short step so the returned value corresponds to
//! the target time, never an overshoot.
//!
//! Every result is pinned exactly by the specification functions below, so
//! two runs from equal inputs return equal values.

use vstd::prelude::*;
use crate::rat::{
    frac_int, frac_le, frac_lt, frac_wf, frac_zero, sadd, sdiv, smul, ssub, Frac, Rat,
};

verus! {

/// An error raised by a rate function, carried through unchanged.
#[derive(Clone, Copy, Debug, PartialEq, Eq, Structural)]
pub struct RateError {
    pub code: i64,
}

/// Why a stepping operation failed.
#[derive(Clone, Copy, Debug, PartialEq, Eq, Structural)]
pub enum IntegrateError {
    /// The step size was zero or negative.
    InvalidStepSize,
    /// The target time lay before the initial time.
    InvalidTimeRange,
    /// The rate function failed; its own error is carried unchanged.
    RateFunctionFailure(RateError),
    /// An exact intermediate value left the representable range.
    ArithmeticOverflow,
}

/// A rate function `f(t, x)`: the derivative of the state with respect to
/// time.  `rate_ok` says on which points evaluation succeeds, `rate_of`
/// what it returns there, and `rate_err` which error it reports elsewhere,
/// so evaluation is deterministic: equal arguments give equal results.
pub trait RateFn: Sized {
    /// The evaluator's own well-formedness.
    spec fn inv(&self) -> bool;

    /// Whether evaluation succeeds at `(t, x)`.
    spec fn rate_ok(&self, t: Frac, x: Frac) -> bool;

    /// The value of the rate function at `(t, x)`, when it succeeds.
    spec fn rate_of(&self, t: Frac, x: Frac) -> Frac;

    /// The error reported at `(t, x)`, when evaluation fails.
    spec fn rate_err(&self, t: Frac, x: Frac) -> RateError;

    /// Evaluate the rate function; pure, and callable repeatedly.
    fn eval(&self, t: &Rat, x: &Rat) -> (r: Result<Rat, RateError>)
        requires
            self.inv(),
            frac_wf(t@),
            frac_wf(x@),
        ensures
            (r matches Ok(v) ==> self.rate_ok(t@, x@) && v@ == self.rate_of(t@, x@) && frac_wf(
                v@,
            )),
            (r matches Err(e) ==> !self.rate_ok(t@, x@) && e == self.rate_err(t@, x@)),
    ;
}

/// The result of a stepping operation, as a fraction.
pub open spec fn res_model(r: Result<Rat, IntegrateError>) -> Result<Frac, IntegrateError> {
    match r {
        Ok(v) => Ok(v@),
        Err(e) => Err(e),
    }
}

/// `x0 + k * h`, reduced at each operation; `None` when a reduced
/// intermediate value leaves the representable range.
pub open spec fn sscale_add(x0: Frac, k: Frac, h: Frac) -> Option<Frac> {
    match smul(k, h) {
        None => None,
        Some(p) => sadd(x0, p),
    }
}

/// What one explicit Euler step returns: `x0 + f(t0, x0) * dt`, with a
/// failed rate evaluation or an out-of-range intermediate value reported.
pub open spec fn euler_spec<R: RateFn>(f: R, x0: Frac, t0: Frac, dt: Frac) -> Result<
    Frac,
    IntegrateError,
> {
    if !f.rate_ok(t0, x0) {
        Err(IntegrateError::RateFunctionFailure(f.rate_err(t0, x0)))
    } else {
        match sscale_add(x0, f.rate_of(t0, x0), dt) {
            None => Err(IntegrateError::ArithmeticOverflow),
            Some(v) => Ok(v),
        }
    }
}

/// The weighted stencil sum `k1 + k2*2 + k3*2 + k4` of the four
/// Runge-Kutta slopes, combined left to right.
pub open spec fn rk4_sum(k1: Frac, k2: Frac, k3: Frac, k4: Frac) -> Option<Frac> {
    match smul(k2, frac_int(2)) {
        None => None,
        Some(s1) => match sadd(k1, s1) {
            None => None,
            Some(s2) => match smul(k3, frac_int(2)) {
                None => None,
                Some(s3) => match sadd(s2, s3) {
                    None => None,
                    Some(s4) => sadd(s4, k4),
                },
            },
        },
    }
}

/// What one classical fourth-order Runge-Kutta step returns: the rate is
/// evaluated at the quarter/half/half/full-step stencil and the state
/// advances by `(k1 + 2*k2 + 2*k3 + k4) * (dt/6)`.
pub open spec fn rk4_spec<R: RateFn>(f: R, x0: Frac, t0: Frac, dt: Frac) -> Result<
    Frac,
    IntegrateError,
> {
    match sdiv(dt, frac_int(2)) {
        None => Err(IntegrateError::ArithmeticOverflow),
        Some(half) => if !f.rate_ok(t0, x0) {
            Err(IntegrateError::RateFunctionFailure(f.rate_err(t0, x0)))
        } else {
            let k1 = f.rate_of(t0, x0);
            match sscale_add(x0, k1, half) {
                None => Err(IntegrateError::ArithmeticOverflow),
                Some(xa) => match sadd(t0, half) {
                    None => Err(IntegrateError::ArithmeticOverflow),
                    Some(th) => if !f.rate_ok(th, xa) {
                        Err(IntegrateError::RateFunctionFailure(f.rate_err(th, xa)))
                    } else {
                        let k2 = f.rate_of(th, xa);
                        match sscale_add(x0, k2, half) {
                            None => Err(IntegrateError::ArithmeticOverflow),
                            Some(xb) => if !f.rate_ok(th, xb) {
                                Err(IntegrateError::RateFunctionFailure(f.rate_err(th, xb)))
                            } else {
                                let k3 = f.rate_of(th, xb);
                                match sadd(t0, dt) {
                                    None => Err(IntegrateError::ArithmeticOverflow),
                                    Some(tf) => match sscale_add(x0, k3, dt) {
                                        None => Err(IntegrateError::ArithmeticOverflow),
                                        Some(xc) => if !f.rate_ok(tf, xc) {
                                            Err(
                                                IntegrateError::RateFunctionFailure(
                                                    f.rate_err(tf, xc),
                                                ),
                                            )
                                        } else {
                                            let k4 = f.rate_of(tf, xc);
                                            match rk4_sum(k1, k2, k3, k4) {
                                                None => Err(IntegrateError::ArithmeticOverflow),
                                                Some(sum) => match sdiv(dt, frac_int(6)) {
                                                    None => Err(
                                                        IntegrateError::ArithmeticOverflow,
                                                    ),
                                                    Some(sixth) => match smul(sum, sixth) {
                                                        None => Err(
                                                            IntegrateError::ArithmeticOverflow,
                                                        ),
                                                        Some(incr) => match sadd(x0, incr) {
                                                            None => Err(
                                                                IntegrateError::ArithmeticOverflow,
                                                            ),
                                                            Some(v) => Ok(v),
                                                        },
                                                    },
                                                },
                                            }
                                        },
                                    },
                                }
                            },
                        }
                    },
                },
            }
        },
    }
}

/// The integration scheme, chosen once at construction.
#[derive(Clone, Copy, Debug, PartialEq, Eq, Structural)]
pub enum Stepper {
    /// First-order explicit Euler rule.
    ExplicitEuler,
    /// Classical fourth-order Runge-Kutta rule.
    RungeKutta4,
}

/// What one step of scheme `s` returns, for any step size.
pub open spec fn step_spec<R: RateFn>(s: Stepper, f: R, x0: Frac, t0: Frac, dt: Frac) -> Result<
    Frac,
    IntegrateError,
> {
    match s {
        Stepper::ExplicitEuler => euler_spec(f, x0, t0, dt),
        Stepper::RungeKutta4 => rk4_spec(f, x0, t0, dt),
    }
}

/// What `Stepper::step` returns: a zero or negative step size is rejected
/// before any evaluation.
pub open spec fn checked_step_spec<R: RateFn>(
    s: Stepper,
    f: R,
    x0: Frac,
    t0: Frac,
    dt: Frac,
) -> Result<Frac, IntegrateError> {
    if !frac_lt(frac_zero(), dt) {
        Err(IntegrateError::InvalidStepSize)
    } else {
        step_spec(s, f, x0, t0, dt)
    }
}

/// A step never fails with a rejection error: its only failures are a
/// failed rate evaluation or an out-of-range value.
pub proof fn lemma_step_spec_errors<R: RateFn>(s: Stepper, f: R, x0: Frac, t0: Frac, dt: Frac)
    ensures
        (step_spec(s, f, x0, t0, dt) matches Err(e) ==> (e matches
            IntegrateError::RateFunctionFailure(_)
            || e == IntegrateError::ArithmeticOverflow)),
{
}

fn euler_step<R: RateFn>(f: &R, x0: &Rat, t0: &Rat, dt: &Rat) -> (r: Result<Rat, IntegrateError>)
    requires
        f.inv(),
        frac_wf(x0@),
        frac_wf(t0@),
        frac_wf(dt@),
    ensures
        res_model(r) == euler_spec(*f, x0@, t0@, dt@),
        (r matches Ok(v) ==> frac_wf(v@)),
{
    let k = match f.eval(t0, x0) {
        Ok(v) => v,
        Err(e) => {
            return Err(IntegrateError::RateFunctionFailure(e));
        },
    };
    let p = match k.mul(dt) {
        Some(v) => v,
        None => {
            return Err(IntegrateError::ArithmeticOverflow);
        },
    };
    match x0.add(&p) {
        Some(v) => Ok(v),
        None => Err(IntegrateError::ArithmeticOverflow),
    }
}

#[verifier::rlimit(50)]
fn rk4_step<R: RateFn>(f: &R, x0: &Rat, t0: &Rat, dt: &Rat) -> (r: Result<Rat, IntegrateError>)
    requires
        f.inv(),
        frac_wf(x0@),
        frac_wf(t0@),
        frac_wf(dt@),
    ensures
        res_model(r) == rk4_spec(*f, x0@, t0@, dt@),
        (r matches Ok(v) ==> frac_wf(v@)),
{
    let two = Rat::from_int(2);
    let six = Rat::from_int(6);
    let half = match dt.div(&two) {
        Some(v) => v,
        None => {
            return Err(IntegrateError::ArithmeticOverflow);
        },
    };
    let k1 = match f.eval(t0, x0) {
        Ok(v) => v,
        Err(e) => {
            return Err(IntegrateError::RateFunctionFailure(e));
        },
    };
    let p1 = match k1.mul(&half) {
        Some(v) => v,
        None => {
            return Err(IntegrateError::ArithmeticOverflow);
        },
    };
    let xa = match x0.add(&p1) {
        Some(v) => v,
        None => {
            return Err(IntegrateError::ArithmeticOverflow);
        },
    };
    let th = match t0.add(&half) {
        Some(v) => v,
        None => {
            return Err(IntegrateError::ArithmeticOverflow);
        },
    };
    let k2 = match f.eval(&th, &xa) {
        Ok(v) => v,
        Err(e) => {
            return Err(IntegrateError::RateFunctionFailure(e));
        },
    };
    let p2 = match k2.mul(&half) {
        Some(v) => v,
        None => {
            return Err(IntegrateError::ArithmeticOverflow);
        },
    };
    let xb = match x0.add(&p2) {
        Some(v) => v,
        None => {
            return Err(IntegrateError::ArithmeticOverflow);
        },
    };
    let k3 = match f.eval(&th, &xb) {
        Ok(v) => v,
        Err(e) => {
            return Err(IntegrateError::RateFunctionFailure(e));
        },
    };
    let tf = match t0.add(dt) {
        Some(v) => v,
        None => {
            return Err(IntegrateError::ArithmeticOverflow);
        },
    };
    let p3 = match k3.mul(dt) {
        Some(v) => v,
        None => {
            return Err(IntegrateError::ArithmeticOverflow);
        },
    };
    let xc = match x0.add(&p3) {
        Some(v) => v,
        None => {
            return Err(IntegrateError::ArithmeticOverflow);
        },
    };
    let k4 = match f.eval(&tf, &xc) {
        Ok(v) => v,
        Err(e) => {
            return Err(IntegrateError::RateFunctionFailure(e));
        },
    };
    let s1 = match k2.mul(&two) {
        Some(v) => v,
        None => {
            return Err(IntegrateError::ArithmeticOverflow);
        },
    };
    let s2 = match k1.add(&s1) {
        Some(v) => v,
        None => {
            return Err(IntegrateError::ArithmeticOverflow);
        },
    };
    let s3 = match k3.mul(&two) {
        Some(v) => v,
        None => {
            return Err(IntegrateError::ArithmeticOverflow);
        },
    };
    let s4 = match s2.add(&s3) {
        Some(v) => v,
        None => {
            return Err(IntegrateError::ArithmeticOverflow);
        },
    };
    let sum = match s4.add(&k4) {
        Some(v) => v,
        None => {
            return Err(IntegrateError::ArithmeticOverflow);
        },
    };
    let sixth = match dt.div(&six) {
        Some(v) => v,
        None => {
            return Err(IntegrateError::ArithmeticOverflow);
        },
    };
    let incr = match sum.mul(&sixth) {
        Some(v) => v,
        None => {
            return Err(IntegrateError::ArithmeticOverflow);
        },
    };
    match x0.add(&incr) {
        Some(v) => Ok(v),
        None => Err(IntegrateError::ArithmeticOverflow),
    }
}

impl Stepper {
    /// One step of the chosen scheme, for any well-formed step size; the
    /// bounded driver uses this for its final, possibly zero-length step.
    pub(crate) fn step_any<R: RateFn>(&self, f: &R, x0: &Rat, t0: &Rat, dt: &Rat) -> (r: Result<
        Rat,
        IntegrateError,
    >)
        requires
            f.inv(),
            frac_wf(x0@),
            frac_wf(t0@),
            frac_wf(dt@),
        ensures
            res_model(r) == step_spec(*self, *f, x0@, t0@, dt@),
            (r matches Ok(v) ==> frac_wf(v@)),
    {
        match self {
            Stepper::ExplicitEuler => euler_step(f, x0, t0, dt),
            Stepper::RungeKutta4 => rk4_step(f, x0, t0, dt),
        }
    }

    /// One step of the chosen scheme: `x1` at time `t0 + dt` from `x0` at
    /// `t0`.  A step size that is not positive is rejected, and that is
    /// the only input this operation itself rejects.
    pub fn step<R: RateFn>(&self, f: &R, x0: &Rat, t0: &Rat, dt: &Rat) -> (r: Result<
        Rat,
        IntegrateError,
    >)
        requires
            f.inv(),
            frac_wf(x0@),
            frac_wf(t0@),
            frac_wf(dt@),
        ensures
            res_model(r) == checked_step_spec(*self, *f, x0@, t0@, dt@),
            (r matches Ok(v) ==> frac_wf(v@)),
            ((r matches Err(e) && e == IntegrateError::InvalidStepSize) <==> !frac_lt(
                frac_zero(),
                dt@,
            )),
    {
        if !dt.is_positive() {
            Err(IntegrateError::InvalidStepSize)
        } else {
            let r = self.step_any(f, x0, t0, dt);
            proof {
                lemma_step_spec_errors(*self, *f, x0@, t0@, dt@);
            }
            r
        }
    }
}

} // verus!
