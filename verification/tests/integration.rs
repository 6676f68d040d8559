use timestep::ode::{IntegrateError, RateError, Stepper};
use timestep::rat::Rat;
use timestep::rates::{ConstantRate, LinearRate, ProductRate};
use timestep::traj::to_iter;

fn rat(n: i64, d: i64) -> Rat {
    Rat::new(n, d).unwrap()
}

fn as_f64(x: &Rat) -> f64 {
    x.numerator() as f64 / x.denominator() as f64
}

fn assert_value(x: &Rat, n: i64, d: i64) {
    assert!(x.same_value(&rat(n, d)), "got {}/{}", x.numerator(), x.denominator());
}

#[test]
fn rat_construction_and_reduction() {
    let half = rat(2, 4);
    assert_eq!(half.numerator(), 1);
    assert_eq!(half.denominator(), 2);
    let neg = rat(3, -6);
    assert_eq!(neg.numerator(), -1);
    assert_eq!(neg.denominator(), 2);
    assert_eq!(Rat::new(5, 0), None);
    assert_eq!(rat(2, 4), rat(1, 2));
    let sum = rat(1, 6).add(&rat(1, 3)).unwrap();
    assert_value(&sum, 1, 2);
    let prod = rat(2, 3).mul(&rat(3, 4)).unwrap();
    assert_value(&prod, 1, 2);
    let diff = rat(1, 2).sub(&rat(3, 4)).unwrap();
    assert_value(&diff, -1, 4);
    let quot = rat(1, 2).div(&rat(-3, 4)).unwrap();
    assert_value(&quot, -2, 3);
    assert!(rat(1, 3).lt(&rat(1, 2)));
    assert!(!rat(1, 2).lt(&rat(1, 2)));
    assert!(rat(1, 2).le(&rat(1, 2)));
    assert!(rat(1, 10).is_positive());
    assert!(!rat(-1, 10).is_positive());
}

#[test]
fn rat_division_by_zero() {
    let zero = Rat::from_int(0);
    assert_eq!(rat(1, 2).div(&zero), None);
}

// Exactness for constant rates: with f(t, x) = c, every produced element
// equals x0 + c*k*dt exactly.
#[test]
fn constant_rate_exact_euler() {
    let f = ConstantRate { c: rat(3, 2) };
    let mut it = to_iter(Stepper::ExplicitEuler, f, Rat::from_int(1), Rat::from_int(0), rat(1, 10))
        .unwrap();
    let mut last = Rat::from_int(1);
    for k in 1..=5i64 {
        last = it.next().unwrap();
        // x0 + c*k*dt = 1 + (3/2)*(k/10)
        assert_value(&last, 20 + 3 * k, 20);
    }
    assert_value(&last, 7, 4);
}

#[test]
fn constant_rate_exact_rk4() {
    let f = ConstantRate { c: rat(3, 2) };
    let mut it = to_iter(Stepper::RungeKutta4, f, Rat::from_int(1), Rat::from_int(0), rat(1, 10))
        .unwrap();
    let mut last = Rat::from_int(1);
    for k in 1..=5i64 {
        last = it.next().unwrap();
        assert_value(&last, 20 + 3 * k, 20);
    }
    assert_value(&last, 7, 4);
}

// Order of accuracy: for f(t, x) = -x, halving dt divides Euler's terminal
// error by roughly 2.
#[test]
fn order_of_accuracy_euler() {
    let f = LinearRate { k: Rat::from_int(-1) };
    let one = Rat::from_int(1);
    let zero = Rat::from_int(0);
    let coarse = Stepper::ExplicitEuler.integrate_to(&f, one, zero, one, rat(1, 5)).unwrap();
    let fine = Stepper::ExplicitEuler.integrate_to(&f, one, zero, one, rat(1, 10)).unwrap();
    let truth = (-1.0f64).exp();
    let err_coarse = (as_f64(&coarse) - truth).abs();
    let err_fine = (as_f64(&fine) - truth).abs();
    let ratio = err_coarse / err_fine;
    assert!(ratio > 1.8 && ratio < 2.4, "ratio {}", ratio);
}

// ... and divides the Runge-Kutta terminal error by roughly 16.
#[test]
fn order_of_accuracy_rk4() {
    let f = LinearRate { k: Rat::from_int(-1) };
    let one = Rat::from_int(1);
    let zero = Rat::from_int(0);
    let quarter = rat(1, 4);
    let coarse = Stepper::RungeKutta4.integrate_to(&f, one, zero, quarter, rat(1, 4)).unwrap();
    let fine = Stepper::RungeKutta4.integrate_to(&f, one, zero, quarter, rat(1, 8)).unwrap();
    let truth = (-0.25f64).exp();
    let err_coarse = (as_f64(&coarse) - truth).abs();
    let err_fine = (as_f64(&fine) - truth).abs();
    let ratio = err_coarse / err_fine;
    assert!(ratio > 10.0 && ratio < 24.0, "ratio {}", ratio);
}

// Terminal time exactness: with f(t, x) = 1 the result equals
// x0 + (t_end - t0) exactly, so t_end = 5.06 with dt = 0.1 shows the final
// step had size 0.06, not 0.1 and not 0.
#[test]
fn terminal_time_exact() {
    let f = ConstantRate { c: Rat::from_int(1) };
    let zero = Rat::from_int(0);
    let t_end = rat(506, 100);
    let dt = rat(1, 10);
    let euler = Stepper::ExplicitEuler.integrate_to(&f, zero, zero, t_end, dt).unwrap();
    assert_value(&euler, 253, 50);
    let rk4 = Stepper::RungeKutta4.integrate_to(&f, zero, zero, t_end, dt).unwrap();
    assert_value(&rk4, 253, 50);
}

// Zero-span driver: t_end == t0 returns x0 unchanged for any stepper.
#[test]
fn zero_span_returns_initial() {
    let f = LinearRate { k: Rat::from_int(-1) };
    let x0 = rat(7, 4);
    let t0 = Rat::from_int(3);
    let dt = rat(1, 10);
    let euler = Stepper::ExplicitEuler.integrate_to(&f, x0, t0, t0, dt).unwrap();
    assert_eq!(euler, x0);
    let rk4 = Stepper::RungeKutta4.integrate_to(&f, x0, t0, t0, dt).unwrap();
    assert_eq!(rk4, x0);
}

// Trajectory determinism: equal construction arguments give identical
// sequences element by element.
#[test]
fn trajectory_determinism() {
    let make = || {
        to_iter(
            Stepper::RungeKutta4,
            ProductRate { k: Rat::from_int(-1) },
            rat(11, 10),
            Rat::from_int(0),
            rat(1, 10),
        )
        .unwrap()
    };
    let mut a = make();
    let mut b = make();
    for _ in 0..2 {
        let va = a.next().unwrap();
        let vb = b.next().unwrap();
        assert_eq!(va, vb);
    }
    let make_euler = || {
        to_iter(
            Stepper::ExplicitEuler,
            LinearRate { k: Rat::from_int(-1) },
            rat(11, 10),
            Rat::from_int(0),
            rat(1, 10),
        )
        .unwrap()
    };
    let mut ea = make_euler();
    let mut eb = make_euler();
    for _ in 0..8 {
        assert_eq!(ea.next().unwrap(), eb.next().unwrap());
    }
    // A freshly constructed trajectory restarts from the initial condition.
    let mut c = make();
    let mut a2 = make();
    let first = a2.next().unwrap();
    assert_eq!(c.next().unwrap(), first);
}

#[test]
fn rejects_zero_step() {
    let f = ConstantRate { c: Rat::from_int(1) };
    let zero = Rat::from_int(0);
    let one = Rat::from_int(1);
    let r = Stepper::ExplicitEuler.integrate_to(&f, one, zero, one, zero);
    assert_eq!(r, Err(IntegrateError::InvalidStepSize));
    let s = Stepper::RungeKutta4.step(&f, &one, &zero, &zero);
    assert_eq!(s, Err(IntegrateError::InvalidStepSize));
    assert!(matches!(
        to_iter(Stepper::ExplicitEuler, f, one, zero, zero),
        Err(IntegrateError::InvalidStepSize)
    ));
}

#[test]
fn rejects_negative_step() {
    let f = ConstantRate { c: Rat::from_int(1) };
    let zero = Rat::from_int(0);
    let one = Rat::from_int(1);
    let dt = rat(-1, 10);
    let r = Stepper::ExplicitEuler.integrate_to(&f, one, zero, one, dt);
    assert_eq!(r, Err(IntegrateError::InvalidStepSize));
    let s = Stepper::ExplicitEuler.step(&f, &one, &zero, &dt);
    assert_eq!(s, Err(IntegrateError::InvalidStepSize));
    assert!(matches!(
        to_iter(Stepper::RungeKutta4, f, one, zero, dt),
        Err(IntegrateError::InvalidStepSize)
    ));
}

#[test]
fn rejects_reversed_time_range() {
    let f = ConstantRate { c: Rat::from_int(1) };
    let zero = Rat::from_int(0);
    let one = Rat::from_int(1);
    let r = Stepper::ExplicitEuler.integrate_to(&f, one, one, zero, rat(1, 10));
    assert_eq!(r, Err(IntegrateError::InvalidTimeRange));
    // The three rejections are distinguishable from one another.
    assert_ne!(
        IntegrateError::InvalidTimeRange,
        IntegrateError::InvalidStepSize,
    );
}

// Concrete scenario: one Euler step of f(t, x) = -x from x0 = 1 with
// dt = 0.1 gives exactly 0.9.
#[test]
fn euler_single_step_decay() {
    let f = LinearRate { k: Rat::from_int(-1) };
    let x = Stepper::ExplicitEuler
        .step(&f, &Rat::from_int(1), &Rat::from_int(0), &rat(1, 10))
        .unwrap();
    assert_eq!(x.numerator(), 9);
    assert_eq!(x.denominator(), 10);
}

// ... and one Runge-Kutta step gives exactly 72387/80000, close to
// exp(-0.1).
#[test]
fn rk4_single_step_decay() {
    let f = LinearRate { k: Rat::from_int(-1) };
    let x = Stepper::RungeKutta4
        .step(&f, &Rat::from_int(1), &Rat::from_int(0), &rat(1, 10))
        .unwrap();
    assert_eq!(x.numerator(), 72387);
    assert_eq!(x.denominator(), 80000);
    assert!((as_f64(&x) - (-0.1f64).exp()).abs() < 1e-6);
}

// The trajectory of x' = -t*x matches a floating-point run of the same
// stencil closely.
#[test]
fn product_rate_matches_float_run() {
    let f = ProductRate { k: Rat::from_int(-1) };
    let mut it =
        to_iter(Stepper::RungeKutta4, f, rat(11, 10), Rat::from_int(0), rat(1, 10)).unwrap();
    let rate = |t: f64, x: f64| -t * x;
    let mut xf = 1.1f64;
    let mut tf = 0.0f64;
    let h = 0.1f64;
    for _ in 0..2 {
        let v = it.next().unwrap();
        let k1 = rate(tf, xf);
        let k2 = rate(tf + h / 2.0, xf + k1 * (h / 2.0));
        let k3 = rate(tf + h / 2.0, xf + k2 * (h / 2.0));
        let k4 = rate(tf + h, xf + k3 * h);
        xf = xf + (k1 + k2 * 2.0 + k3 * 2.0 + k4) * (h / 6.0);
        tf += h;
        assert!((as_f64(&v) - xf).abs() < 1e-9);
    }
}

#[test]
fn rate_failure_propagates() {
    let f = LinearRate { k: Rat::from_int(i64::MAX) };
    let x0 = Rat::from_int(3);
    let r = Stepper::ExplicitEuler.step(&f, &x0, &Rat::from_int(0), &rat(1, 10));
    assert_eq!(r, Err(IntegrateError::RateFunctionFailure(RateError { code: 1 })));
}

#[test]
fn overflow_reported() {
    let f = ConstantRate { c: Rat::from_int(i64::MAX) };
    let x0 = Rat::from_int(i64::MAX);
    let r = Stepper::ExplicitEuler.step(&f, &x0, &Rat::from_int(0), &Rat::from_int(1));
    assert_eq!(r, Err(IntegrateError::ArithmeticOverflow));
}
