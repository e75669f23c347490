//! Arithmetic Brownian Motion, `dS = mu * dt + sigma * dW`, discretised by
//! the Euler-Maruyama method.
//!
//! Every real quantity is a fixed-point number: an `i64` count of
//! `1 / UNIT` parts of a whole. The Wiener increments come from standard
//! normal draws that the caller supplies, in the same units, so a run is a
//! function of the configuration and of those draws alone.
use vstd::prelude::*;

use crate::fixed::{floor_div, isqrt, sqrt_floor};
use crate::UNIT;

verus! {

/// Why a configuration was refused.
#[derive(Debug, Clone, Copy, PartialEq, Eq, Structural)]
pub enum ConfigurationError {
    /// A path needs at least one step.
    ZeroSteps,
    /// A run needs at least one path.
    ZeroPaths,
    /// The time horizon must be positive.
    NonPositiveHorizon,
    /// The volatility must not be negative.
    NegativeVolatility,
}

/// Why a run could not be completed.
#[derive(Debug, Clone, Copy, PartialEq, Eq, Structural)]
pub enum SimulationError {
    /// A value of a path does not fit in an `i64`.
    Overflow,
}

/// The model's parameters. `mu`, `sigma`, `t_end` and `s_0` are fixed-point
/// numbers (see `UNIT`).
pub struct ArithmeticBrownianMotion {
    /// Drift: the expected change per unit of time.
    pub mu: i64,
    /// Volatility: the standard deviation of the change per unit of time.
    pub sigma: i64,
    /// Number of simulated paths.
    pub n_paths: usize,
    /// Number of steps in each path.
    pub n_steps: usize,
    /// Total simulated time.
    pub t_end: i64,
    /// Value of every path at time zero.
    pub s_0: i64,
}

/// The conditions under which a configuration is accepted.
pub open spec fn valid_parameters(sigma: int, n_paths: nat, n_steps: nat, t_end: int) -> bool {
    &&& n_steps > 0
    &&& n_paths > 0
    &&& t_end > 0
    &&& sigma >= 0
}

/// Whether an integer fits in an `i64`.
pub open spec fn fits_i64(x: int) -> bool {
    i64::MIN <= x <= i64::MAX
}

impl ArithmeticBrownianMotion {
    /// The parameters satisfy the model's constraints.
    pub open spec fn wf(&self) -> bool {
        valid_parameters(self.sigma as int, self.n_paths as nat, self.n_steps as nat, self.t_end as int)
    }

    /// The deterministic part of one step, `mu * dt` with
    /// `dt = t_end / n_steps`, rounded down to a whole fixed-point unit.
    pub open spec fn drift_step(&self) -> int {
        (self.mu * self.t_end) / (self.n_steps * UNIT)
    }

    /// `sqrt(dt)` as a fixed-point number, rounded down.
    pub open spec fn sqrt_dt(&self) -> int {
        sqrt_floor(((self.t_end * UNIT) / (self.n_steps as int)) as nat) as int
    }

    /// `sigma * sqrt(dt)`, the standard deviation of one step, rounded down.
    pub open spec fn vol_step(&self) -> int {
        (self.sigma * self.sqrt_dt()) / (UNIT as int)
    }

    /// The change over one step whose standard normal draw is `z`:
    /// `mu * dt + sigma * sqrt(dt) * z`.
    pub open spec fn increment(&self, z: int) -> int {
        self.drift_step() + (self.vol_step() * z) / (UNIT as int)
    }

    /// Value after `j` steps of the path driven by the draws `noise`.
    pub open spec fn path_value(&self, noise: Seq<i32>, j: nat) -> int
        decreases j,
    {
        if j == 0 {
            self.s_0 as int
        } else {
            self.path_value(noise, (j - 1) as nat) + self.increment(noise[j - 1] as int)
        }
    }

    /// Every value of the path driven by `noise` fits in an `i64`.
    pub open spec fn path_fits(&self, noise: Seq<i32>) -> bool {
        forall|j: nat| j <= self.n_steps ==> #[trigger] fits_i64(self.path_value(noise, j))
    }

    /// `p` is the path driven by `noise`: `n_steps + 1` values, the first
    /// `s_0`, each next one the previous plus one increment.
    pub open spec fn is_path(&self, noise: Seq<i32>, p: Seq<i64>) -> bool {
        &&& p.len() == self.n_steps + 1
        &&& forall|j: int| 0 <= j < p.len() ==> #[trigger] p[j] == self.path_value(noise, j as nat)
    }

    /// Builds a model from its parameters, checking them in the order
    /// steps, paths, horizon, volatility.
    pub fn new(mu: i64, sigma: i64, n_paths: usize, n_steps: usize, t_end: i64, s_0: i64) -> (r:
        Result<Self, ConfigurationError>)
        ensures
            r is Ok <==> valid_parameters(sigma as int, n_paths as nat, n_steps as nat, t_end as int),
            r matches Ok(m) ==> m.wf() && m.mu == mu && m.sigma == sigma && m.n_paths == n_paths
                && m.n_steps == n_steps && m.t_end == t_end && m.s_0 == s_0,
            r == Err::<Self, _>(ConfigurationError::ZeroSteps) <==> n_steps == 0,
            r == Err::<Self, _>(ConfigurationError::ZeroPaths) <==> n_steps > 0 && n_paths == 0,
            r == Err::<Self, _>(ConfigurationError::NonPositiveHorizon) <==> n_steps > 0 && n_paths
                > 0 && t_end <= 0,
            r == Err::<Self, _>(ConfigurationError::NegativeVolatility) <==> n_steps > 0 && n_paths
                > 0 && t_end > 0 && sigma < 0,
    {
        if n_steps == 0 {
            Err(ConfigurationError::ZeroSteps)
        } else if n_paths == 0 {
            Err(ConfigurationError::ZeroPaths)
        } else if t_end <= 0 {
            Err(ConfigurationError::NonPositiveHorizon)
        } else if sigma < 0 {
            Err(ConfigurationError::NegativeVolatility)
        } else {
            Ok(ArithmeticBrownianMotion { mu, sigma, n_paths, n_steps, t_end, s_0 })
        }
    }

    /// `mu * dt` and `sigma * sqrt(dt)` in fixed point. The drift step is
    /// at most `2^126` in magnitude and the volatility step below `2^94`, so
    /// that one increment, `2^125` at most apart from the drift, fits an `i128`.
    fn step_sizes(&self) -> (r: (i128, i128))
        requires
            self.wf(),
        ensures
            r.0 == self.drift_step(),
            r.1 == self.vol_step(),
            -0x4000_0000_0000_0000_0000_0000_0000_0000 <= r.0 <= 0x4000_0000_0000_0000_0000_0000_0000_0000,
            0 <= r.1 < 0x4000_0000_0000_0000_0000_0000,
    {
        assert(-0x4000_0000_0000_0000_0000_0000_0000_0000 <= self.mu * self.t_end
            <= 0x4000_0000_0000_0000_0000_0000_0000_0000) by (nonlinear_arith)
            requires
                -0x8000_0000_0000_0000 <= self.mu < 0x8000_0000_0000_0000,
                0 < self.t_end < 0x8000_0000_0000_0000,
        ;
        let a: i128 = self.mu as i128 * self.t_end as i128;
        let d: i128 = self.n_steps as i128 * (UNIT as i128);
        let drift: i128 = floor_div(a, d);
        proof {
            vstd::arithmetic::div_mod::lemma_fundamental_div_mod(a as int, d as int);
            let m: int = (a as int) % (d as int);
            assert(-0x4000_0000_0000_0000_0000_0000_0000_0000 <= drift <= 0x4000_0000_0000_0000_0000_0000_0000_0000)
                by (nonlinear_arith)
                requires
                    a == d * drift + m,
                    0 <= m < d,
                    d >= 1,
                    -0x4000_0000_0000_0000_0000_0000_0000_0000 <= a <= 0x4000_0000_0000_0000_0000_0000_0000_0000,
            ;
        }
        assert(0 < self.t_end * 1_000_000 < 0x8000_0000_0000_0000 * 1_000_000) by (nonlinear_arith)
            requires
                0 < self.t_end < 0x8000_0000_0000_0000,
        ;
        let scaled: u128 = self.t_end as u128 * (UNIT as u128);
        let arg: u128 = scaled / (self.n_steps as u128);
        assert(arg <= scaled) by (nonlinear_arith)
            requires
                arg == (scaled as int) / (self.n_steps as int),
                self.n_steps >= 1,
                scaled >= 0,
        ;
        let root: u128 = isqrt(arg);
        assert(0 <= self.sigma * root < 0x2_0000_0000_0000_0000_0000_0000_0000) by (nonlinear_arith)
            requires
                0 <= self.sigma < 0x8000_0000_0000_0000,
                0 <= root < 0x4_0000_0000_0000,
        ;
        let v: i128 = self.sigma as i128 * root as i128;
        let vol: i128 = floor_div(v, UNIT as i128);
        assert(0 <= vol < 0x4000_0000_0000_0000_0000_0000) by (nonlinear_arith)
            requires
                vol == v / 1_000_000,
                0 <= v < 0x2_0000_0000_0000_0000_0000_0000_0000,
        ;
        (drift, vol)
    }

    /// Runs one path: starts at `s_0` and adds, for each draw `noise[j]`,
    /// the increment `mu * dt + sigma * sqrt(dt) * noise[j]`.
    /// Fails exactly when some value of the path does not fit in an `i64`.
    pub fn simulate_path(&self, noise: &Vec<i32>) -> (r: Result<Vec<i64>, SimulationError>)
        requires
            self.wf(),
            noise@.len() == self.n_steps,
        ensures
            r is Ok <==> self.path_fits(noise@),
            r matches Ok(p) ==> self.is_path(noise@, p@),
    {
        let (drift, vol) = self.step_sizes();
        let mut p: Vec<i64> = Vec::new();
        p.push(self.s_0);
        let mut cur: i64 = self.s_0;
        let mut j: usize = 0;
        while j < self.n_steps
            invariant
                self.wf(),
                noise@.len() == self.n_steps,
                drift == self.drift_step(),
                vol == self.vol_step(),
                -0x4000_0000_0000_0000_0000_0000_0000_0000 <= drift <= 0x4000_0000_0000_0000_0000_0000_0000_0000,
                0 <= vol < 0x4000_0000_0000_0000_0000_0000,
                j <= self.n_steps,
                p@.len() == j + 1,
                cur == self.path_value(noise@, j as nat),
                forall|k: int| 0 <= k <= j ==> #[trigger] p@[k] == self.path_value(noise@, k as nat),
                forall|k: nat| k <= j ==> #[trigger] fits_i64(self.path_value(noise@, k)),
            decreases self.n_steps - j,
        {
            let z: i32 = noise[j];
            assert(-0x2000_0000_0000_0000_0000_0000_0000_0000 < vol * z < 0x2000_0000_0000_0000_0000_0000_0000_0000)
                by (nonlinear_arith)
                requires
                    0 <= vol < 0x4000_0000_0000_0000_0000_0000,
                    -0x8000_0000 <= z < 0x8000_0000,
            ;
            let t: i128 = vol * (z as i128);
            let w: i128 = floor_div(t, UNIT as i128);
            proof {
                vstd::arithmetic::div_mod::lemma_fundamental_div_mod(t as int, 1_000_000);
                let m: int = (t as int) % 1_000_000;
                assert(-0x2000_0000_0000_0000_0000_0000_0000_0000 < w < 0x2000_0000_0000_0000_0000_0000_0000_0000)
                    by (nonlinear_arith)
                    requires
                        t == 1_000_000 * w + m,
                        0 <= m < 1_000_000,
                        -0x2000_0000_0000_0000_0000_0000_0000_0000 < t < 0x2000_0000_0000_0000_0000_0000_0000_0000,
                ;
            }
            let next: i128 = cur as i128 + drift + w;
            assert(next == self.path_value(noise@, (j + 1) as nat));
            if next < i64::MIN as i128 || next > i64::MAX as i128 {
                assert(!fits_i64(self.path_value(noise@, (j + 1) as nat)));
                return Err(SimulationError::Overflow);
            }
            cur = next as i64;
            p.push(cur);
            j = j + 1;
        }
        Ok(p)
    }

    /// Runs `n_paths` paths, path `i` driven by the draws `noise[i]`.
    /// Every path has `n_steps + 1` values and starts at `s_0`.
    /// Fails exactly when some value of some path does not fit in an `i64`.
    pub fn simulate(&self, noise: &Vec<Vec<i32>>) -> (r: Result<Vec<Vec<i64>>, SimulationError>)
        requires
            self.wf(),
            noise@.len() == self.n_paths,
            forall|i: int| 0 <= i < noise@.len() ==> (#[trigger] noise@[i])@.len() == self.n_steps,
        ensures
            r is Ok <==> forall|i: int| 0 <= i < noise@.len() ==> self.path_fits(#[trigger] noise@[i]@),
            r matches Ok(ps) ==> {
                &&& ps@.len() == self.n_paths
                &&& forall|i: int| 0 <= i < ps@.len() ==> (#[trigger] ps@[i])@.len() == self.n_steps + 1
                &&& forall|i: int| 0 <= i < ps@.len() ==> (#[trigger] ps@[i])@[0] == self.s_0
                &&& forall|i: int| 0 <= i < ps@.len() ==> self.is_path(noise@[i]@, #[trigger] ps@[i]@)
            },
    {
        let mut paths: Vec<Vec<i64>> = Vec::new();
        let mut i: usize = 0;
        while i < self.n_paths
            invariant
                self.wf(),
                noise@.len() == self.n_paths,
                forall|k: int| 0 <= k < noise@.len() ==> (#[trigger] noise@[k])@.len() == self.n_steps,
                i <= self.n_paths,
                paths@.len() == i,
                forall|k: int| 0 <= k < i ==> self.path_fits(#[trigger] noise@[k]@),
                forall|k: int| 0 <= k < i ==> self.is_path(noise@[k]@, #[trigger] paths@[k]@),
            decreases self.n_paths - i,
        {
            match self.simulate_path(&noise[i]) {
                Ok(p) => {
                    paths.push(p);
                },
                Err(e) => {
                    return Err(e);
                },
            }
            i = i + 1;
        }
        proof {
            assert forall|k: int| 0 <= k < paths@.len() implies (#[trigger] paths@[k])@[0] == self.s_0 by {
                assert(self.is_path(noise@[k]@, paths@[k]@));
                assert(paths@[k]@[0] == self.path_value(noise@[k]@, 0));
            }
        }
        Ok(paths)
    }
}

/// Each value of a simulated path is the one before it plus the increment
/// of the draw for that step: `p[j + 1] == p[j] + mu * dt + sigma * sqrt(dt) * noise[j]`.
pub proof fn lemma_euler_step(m: ArithmeticBrownianMotion, noise: Seq<i32>, p: Seq<i64>, j: int)
    requires
        m.wf(),
        noise.len() == m.n_steps,
        m.is_path(noise, p),
        0 <= j < m.n_steps,
    ensures
        p[j + 1] == p[j] + m.increment(noise[j] as int),
{
    assert(p[j + 1] == m.path_value(noise, (j + 1) as nat));
    assert(p[j] == m.path_value(noise, j as nat));
}

/// With zero volatility the draws do not matter: after `j` steps every path
/// has moved by exactly `j` times the drift step `mu * dt`.
pub proof fn lemma_deterministic_without_volatility(
    m: ArithmeticBrownianMotion,
    noise: Seq<i32>,
    j: nat,
)
    requires
        m.wf(),
        m.sigma == 0,
        noise.len() == m.n_steps,
        j <= m.n_steps,
    ensures
        m.path_value(noise, j) == m.s_0 + j * m.drift_step(),
    decreases j,
{
    let d: int = m.drift_step();
    assert(m.vol_step() == 0);
    if j == 0 {
        assert(j * d == 0);
    } else {
        let i: nat = (j - 1) as nat;
        lemma_deterministic_without_volatility(m, noise, i);
        assert(m.increment(noise[i as int] as int) == d);
        assert(m.path_value(noise, j) == m.path_value(noise, i) + d);
        assert(i * d + d == j * d) by (nonlinear_arith)
            requires
                j == i + 1,
        ;
    }
}

} // verus!
