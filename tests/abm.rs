use rand::rngs::StdRng;
use rand::{Rng, SeedableRng};
use rand_distr::StandardNormal;
use stochastic::abm::{
    ArithmeticBrownianMotion, ConfigurationError, SimulationError,
};
use stochastic::fixed::{floor_div, isqrt};
use stochastic::UNIT;

fn fixed(x: f64) -> i64 {
    (x * UNIT as f64).round() as i64
}

fn normal_noise(rng: &mut StdRng, n_paths: usize, n_steps: usize) -> Vec<Vec<i32>> {
    (0..n_paths)
        .map(|_| {
            (0..n_steps)
                .map(|_| {
                    let z: f64 = rng.sample(StandardNormal);
                    (z * UNIT as f64).round() as i32
                })
                .collect()
        })
        .collect()
}

#[test]
fn test_abm_simulation() {
    let abm = ArithmeticBrownianMotion::new(
        fixed(0.05),
        fixed(0.4),
        50,
        200,
        fixed(1.0),
        fixed(200.0),
    )
    .unwrap();
    let mut rng = StdRng::seed_from_u64(1);
    let noise = normal_noise(&mut rng, 50, 200);
    let paths = abm.simulate(&noise).unwrap();
    assert_eq!(paths.len(), 50);
    assert_eq!(paths[0].len(), 201);
}

#[test]
fn shape_and_start_of_every_path() {
    let abm = ArithmeticBrownianMotion::new(0, fixed(0.4), 50, 200, fixed(1.0), fixed(200.0))
        .unwrap();
    let mut rng = StdRng::seed_from_u64(2);
    let noise = normal_noise(&mut rng, 50, 200);
    let paths = abm.simulate(&noise).unwrap();
    assert_eq!(paths.len(), 50);
    for p in &paths {
        assert_eq!(p.len(), 201);
        assert_eq!(p[0], 200_000_000);
    }
}

#[test]
fn deterministic_path_without_volatility() {
    let abm = ArithmeticBrownianMotion::new(fixed(0.05), 0, 1, 4, fixed(1.0), fixed(100.0))
        .unwrap();
    let noise = vec![vec![1_234_567, -2_000_000, 0, 987_654]];
    let paths = abm.simulate(&noise).unwrap();
    assert_eq!(
        paths,
        vec![vec![100_000_000, 100_012_500, 100_025_000, 100_037_500, 100_050_000]]
    );
}

#[test]
fn zero_volatility_ignores_the_draws() {
    let abm = ArithmeticBrownianMotion::new(fixed(-0.3), 0, 3, 10, fixed(2.0), fixed(7.0))
        .unwrap();
    let mut rng = StdRng::seed_from_u64(3);
    let noise = normal_noise(&mut rng, 3, 10);
    let paths = abm.simulate(&noise).unwrap();
    // dt = 0.2, so each step moves by -0.06.
    for p in &paths {
        for (j, v) in p.iter().enumerate() {
            assert_eq!(*v, 7_000_000 - 60_000 * j as i64);
        }
    }
}

#[test]
fn volatility_scales_the_draw_by_root_of_time_step() {
    // dt = 0.25, sqrt(dt) = 0.5, sigma * sqrt(dt) = 0.5.
    let abm = ArithmeticBrownianMotion::new(0, fixed(1.0), 1, 4, fixed(1.0), 0).unwrap();
    let noise = vec![1_000_000, -1, 2_000_000, -3_000_000];
    let p = abm.simulate_path(&noise).unwrap();
    assert_eq!(p, vec![0, 500_000, 499_999, 1_499_999, -1]);
}

#[test]
fn drift_and_volatility_together() {
    // dt = 0.5, mu * dt = 0.1, sqrt(dt) = 0.707106, sigma * sqrt(dt) = 0.141421.
    let abm = ArithmeticBrownianMotion::new(fixed(0.2), fixed(0.2), 1, 2, fixed(1.0), fixed(10.0))
        .unwrap();
    let p = abm.simulate_path(&vec![1_000_000, -500_000]).unwrap();
    assert_eq!(p, vec![10_000_000, 10_241_421, 10_270_710]);
}

#[test]
fn rejects_zero_steps() {
    let r = ArithmeticBrownianMotion::new(0, 0, 1, 0, fixed(1.0), 0);
    assert_eq!(r.err(), Some(ConfigurationError::ZeroSteps));
}

#[test]
fn rejects_zero_paths() {
    let r = ArithmeticBrownianMotion::new(0, 0, 0, 5, fixed(1.0), 0);
    assert_eq!(r.err(), Some(ConfigurationError::ZeroPaths));
}

#[test]
fn rejects_non_positive_horizon() {
    let r = ArithmeticBrownianMotion::new(0, 0, 1, 5, 0, 0);
    assert_eq!(r.err(), Some(ConfigurationError::NonPositiveHorizon));
    let r = ArithmeticBrownianMotion::new(0, 0, 1, 5, fixed(-1.0), 0);
    assert_eq!(r.err(), Some(ConfigurationError::NonPositiveHorizon));
}

#[test]
fn rejects_negative_volatility() {
    let r = ArithmeticBrownianMotion::new(0, -1, 1, 5, fixed(1.0), 0);
    assert_eq!(r.err(), Some(ConfigurationError::NegativeVolatility));
}

#[test]
fn keeps_the_parameters() {
    let abm = ArithmeticBrownianMotion::new(-5, 6, 7, 8, 9, 10).unwrap();
    assert_eq!(
        (abm.mu, abm.sigma, abm.n_paths, abm.n_steps, abm.t_end, abm.s_0),
        (-5, 6, 7, 8, 9, 10)
    );
}

#[test]
fn overflow_is_reported() {
    let abm = ArithmeticBrownianMotion::new(fixed(1.0), 0, 2, 1, fixed(1.0), i64::MAX - 10)
        .unwrap();
    assert_eq!(abm.simulate(&vec![vec![0], vec![0]]), Err(SimulationError::Overflow));
    let abm = ArithmeticBrownianMotion::new(fixed(-1.0), 0, 1, 1, fixed(1.0), i64::MIN + 999_999)
        .unwrap();
    assert_eq!(abm.simulate_path(&vec![0]), Err(SimulationError::Overflow));
    let abm = ArithmeticBrownianMotion::new(fixed(-1.0), 0, 1, 1, fixed(1.0), i64::MIN + 1_000_000)
        .unwrap();
    assert_eq!(abm.simulate_path(&vec![0]), Ok(vec![i64::MIN + 1_000_000, i64::MIN]));
}

fn increment_statistics(seed: u64) -> (f64, f64) {
    let abm = ArithmeticBrownianMotion::new(fixed(0.5), fixed(2.0), 4000, 4, fixed(1.0), 0)
        .unwrap();
    let mut rng = StdRng::seed_from_u64(seed);
    let noise = normal_noise(&mut rng, 4000, 4);
    let paths = abm.simulate(&noise).unwrap();
    let incs: Vec<f64> = paths
        .iter()
        .map(|p| (p[3] - p[2]) as f64 / UNIT as f64)
        .collect();
    let n = incs.len() as f64;
    let mean = incs.iter().sum::<f64>() / n;
    let var = incs.iter().map(|x| (x - mean) * (x - mean)).sum::<f64>() / (n - 1.0);
    (mean, var)
}

#[test]
fn mean_increment_is_drift_times_time_step() {
    // drift * dt = 0.125; the standard error of the mean is 0.5 / sqrt(4000).
    let (mean, _) = increment_statistics(11);
    assert!((mean - 0.125).abs() < 0.06, "mean {}", mean);
}

#[test]
fn increment_variance_is_volatility_squared_times_time_step() {
    // volatility^2 * dt = 1.0.
    let (_, var) = increment_statistics(12);
    assert!((var - 1.0).abs() < 0.1, "variance {}", var);
}

#[test]
fn fresh_draws_give_different_paths() {
    let abm = ArithmeticBrownianMotion::new(0, fixed(0.4), 5, 20, fixed(1.0), fixed(200.0))
        .unwrap();
    let mut rng = StdRng::seed_from_u64(4);
    let first = abm.simulate(&normal_noise(&mut rng, 5, 20)).unwrap();
    let second = abm.simulate(&normal_noise(&mut rng, 5, 20)).unwrap();
    assert_ne!(first, second);
    let again = abm.simulate(&normal_noise(&mut StdRng::seed_from_u64(4), 5, 20)).unwrap();
    assert_eq!(first, again);
}

#[test]
fn integer_square_root() {
    assert_eq!(isqrt(0), 0);
    assert_eq!(isqrt(1), 1);
    assert_eq!(isqrt(15), 3);
    assert_eq!(isqrt(16), 4);
    assert_eq!(isqrt(250_000_000_000), 500_000);
    assert_eq!(isqrt((1u128 << 100) - 1), (1u128 << 50) - 1);
}

#[test]
fn floor_division() {
    assert_eq!(floor_div(7, 2), 3);
    assert_eq!(floor_div(-7, 2), -4);
    assert_eq!(floor_div(-6, 3), -2);
    assert_eq!(floor_div(0, 5), 0);
    assert_eq!(floor_div(-1, 1_000_000), -1);
}
