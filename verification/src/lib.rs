//! A small numerical time-stepping library over exact rational arithmetic.
//!
//! Given a state, a rate function, and a step size, the library advances the
//! state forward in time with a pluggable integration scheme: a first-order
//! explicit Euler rule or the classical fourth-order Runge-Kutta rule.  A
//! trajectory cursor produces the successive states lazily, and a bounded
//! driver steps to a target time exactly, with a final shortened step.
//!
//! All values are exact rationals (`rat::Rat`); every operation either
//! returns the exact mathematical result in reduced form or reports that it
//! does not fit within the representable range.

pub mod driver;
pub mod laws;
pub mod ode;
pub mod rat;
pub mod rates;
pub mod traj;
