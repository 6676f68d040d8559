//! The lazy trajectory: a pull-based cursor over successive states.
//!
//! Each call of `next` performs exactly one step from the most recently
//! produced state (initially the given state) at the running time, then
//! advances the running time by the fixed step size.  Nothing is computed
//! before it is demanded, no element is skipped or repeated, and a freshly
//! constructed trajectory restarts from its initial condition, so equal
//! construction arguments reproduce the same sequence element by element.

use vstd::prelude::*;
use crate::ode::{res_model, step_spec, IntegrateError, RateFn, Stepper};
use crate::rat::{frac_lt, frac_wf, frac_zero, sadd, Frac, Rat};

verus! {

/// An unbounded, lazily stepped sequence of states.
pub struct Trajectory<R: RateFn> {
    /// The scheme every step uses.
    pub scheme: Stepper,
    /// The rate function every step evaluates.
    pub f: R,
    /// The most recently produced state, initially the initial state.
    pub x: Rat,
    /// The running time: the time of `x`.
    pub t: Rat,
    /// The fixed step size.
    pub dt: Rat,
}

/// Well-formedness of a trajectory cursor: well-formed components and a
/// positive step size.
pub open spec fn traj_inv<R: RateFn>(it: Trajectory<R>) -> bool {
    &&& it.f.inv()
    &&& frac_wf(it.x@)
    &&& frac_wf(it.t@)
    &&& frac_wf(it.dt@)
    &&& frac_lt(frac_zero(), it.dt@)
}

impl<R: RateFn> Trajectory<R> {
    /// What the next call of `next` returns: the stepped state, unless the
    /// step itself or the advance of the running time fails.
    pub open spec fn next_spec(self) -> Result<Frac, IntegrateError> {
        match step_spec(self.scheme, self.f, self.x@, self.t@, self.dt@) {
            Err(e) => Err(e),
            Ok(v) => match sadd(self.t@, self.dt@) {
                None => Err(IntegrateError::ArithmeticOverflow),
                Some(t2) => Ok(v),
            },
        }
    }

    /// Produce the next state: one step of the scheme from `(x, t)`, after
    /// which the running time has advanced by `dt`.  On failure the cursor
    /// is left exactly as it was, so nothing is skipped.
    pub fn next(&mut self) -> (r: Result<Rat, IntegrateError>)
        requires
            traj_inv(*old(self)),
        ensures
            traj_inv(*final(self)),
            final(self).scheme == old(self).scheme,
            final(self).f == old(self).f,
            final(self).dt == old(self).dt,
            res_model(r) == old(self).next_spec(),
            (r matches Ok(v) ==> final(self).x == v && Some(final(self).t@) == sadd(
                old(self).t@,
                old(self).dt@,
            )),
            (r matches Err(e) ==> *final(self) == *old(self)),
    {
        let x2 = match self.scheme.step_any(&self.f, &self.x, &self.t, &self.dt) {
            Ok(v) => v,
            Err(e) => {
                return Err(e);
            },
        };
        let t2 = match self.t.add(&self.dt) {
            Some(v) => v,
            None => {
                return Err(IntegrateError::ArithmeticOverflow);
            },
        };
        self.x = x2;
        self.t = t2;
        Ok(x2)
    }
}

/// Wrap a stepper, a rate function and an initial condition into the lazy
/// sequence of successive states.  A step size that is not positive is
/// rejected, and nothing else is.
pub fn to_iter<R: RateFn>(scheme: Stepper, f: R, x0: Rat, t0: Rat, dt: Rat) -> (r: Result<
    Trajectory<R>,
    IntegrateError,
>)
    requires
        f.inv(),
        frac_wf(x0@),
        frac_wf(t0@),
        frac_wf(dt@),
    ensures
        (!frac_lt(frac_zero(), dt@) ==> (r matches Err(e) && e
            == IntegrateError::InvalidStepSize)),
        (frac_lt(frac_zero(), dt@) ==> (r matches Ok(it) && it.scheme == scheme && it.f == f
            && it.x == x0 && it.t == t0 && it.dt == dt && traj_inv(it))),
{
    if !dt.is_positive() {
        Err(IntegrateError::InvalidStepSize)
    } else {
        Ok(Trajectory { scheme, f, x: x0, t: t0, dt })
    }
}

} // verus!
