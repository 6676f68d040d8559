//! Ready-made rate functions.
//!
//! Each implements `RateFn` with an exact specification, so the stepping
//! contracts pin the produced values completely.

use vstd::prelude::*;
use crate::ode::{RateError, RateFn};
use crate::rat::{frac_wf, frac_zero, smul, Frac, Rat};

verus! {

/// The constant rate `f(t, x) = c`.
pub struct ConstantRate {
    pub c: Rat,
}

impl RateFn for ConstantRate {
    open spec fn inv(&self) -> bool {
        frac_wf(self.c@)
    }

    open spec fn rate_ok(&self, t: Frac, x: Frac) -> bool {
        true
    }

    open spec fn rate_of(&self, t: Frac, x: Frac) -> Frac {
        self.c@
    }

    open spec fn rate_err(&self, t: Frac, x: Frac) -> RateError {
        RateError { code: 0 }
    }

    fn eval(&self, t: &Rat, x: &Rat) -> (r: Result<Rat, RateError>) {
        Ok(self.c)
    }
}

/// The linear rate `f(t, x) = k * x`.
pub struct LinearRate {
    pub k: Rat,
}

/// The error `LinearRate` reports when the product `k * x` leaves the
/// representable range.
pub open spec fn linear_rate_err() -> RateError {
    RateError { code: 1 }
}

impl RateFn for LinearRate {
    open spec fn inv(&self) -> bool {
        frac_wf(self.k@)
    }

    open spec fn rate_ok(&self, t: Frac, x: Frac) -> bool {
        smul(self.k@, x) is Some
    }

    open spec fn rate_of(&self, t: Frac, x: Frac) -> Frac {
        match smul(self.k@, x) {
            Some(v) => v,
            None => frac_zero(),
        }
    }

    open spec fn rate_err(&self, t: Frac, x: Frac) -> RateError {
        linear_rate_err()
    }

    fn eval(&self, t: &Rat, x: &Rat) -> (r: Result<Rat, RateError>) {
        match self.k.mul(x) {
            Some(v) => Ok(v),
            None => Err(RateError { code: 1 }),
        }
    }
}

/// The separable rate `f(t, x) = k * t * x`.
pub struct ProductRate {
    pub k: Rat,
}

/// The error `ProductRate` reports when an intermediate product leaves the
/// representable range.
pub open spec fn product_rate_err() -> RateError {
    RateError { code: 2 }
}

impl RateFn for ProductRate {
    open spec fn inv(&self) -> bool {
        frac_wf(self.k@)
    }

    open spec fn rate_ok(&self, t: Frac, x: Frac) -> bool {
        match smul(self.k@, t) {
            Some(p) => smul(p, x) is Some,
            None => false,
        }
    }

    open spec fn rate_of(&self, t: Frac, x: Frac) -> Frac {
        match smul(self.k@, t) {
            Some(p) => match smul(p, x) {
                Some(v) => v,
                None => frac_zero(),
            },
            None => frac_zero(),
        }
    }

    open spec fn rate_err(&self, t: Frac, x: Frac) -> RateError {
        product_rate_err()
    }

    fn eval(&self, t: &Rat, x: &Rat) -> (r: Result<Rat, RateError>) {
        let p = match self.k.mul(t) {
            Some(v) => v,
            None => {
                return Err(RateError { code: 2 });
            },
        };
        match p.mul(x) {
            Some(v) => Ok(v),
            None => Err(RateError { code: 2 }),
        }
    }
}

} // verus!
