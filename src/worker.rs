use vstd::prelude::*;
use rand::rngs::StdRng;
use crate::config::Config;
use crate::selector::{config_target_error, draw_below, rng_from_seed, ConfigError, TargetSelector};

verus! {

pub open spec fn min_nat(a: nat, b: nat) -> nat {
    if a <= b {
        a
    } else {
        b
    }
}

/// Microseconds between the starts of two requests of one worker when
/// `workers` workers share a rate of `rps` requests per second, capped at
/// `u64::MAX`.
pub open spec fn nominal_period(workers: nat, rps: nat) -> nat {
    if rps == 0 {
        0
    } else {
        min_nat(workers * 1_000_000 / rps, u64::MAX as nat)
    }
}

/// Microseconds from the start of the run to its deadline, capped at
/// `u64::MAX`.
pub open spec fn deadline_of(duration_secs: nat) -> nat {
    min_nat(duration_secs * 1_000_000, u64::MAX as nat)
}

/// How long a worker sleeps after a request that took `elapsed_us`: what is
/// left of the nominal period plus `jitter_ms` of jitter, never below
/// zero, capped at `u64::MAX`.
pub open spec fn sleep_after(nominal_us: nat, jitter_ms: nat, elapsed_us: nat) -> nat {
    let target = nominal_us + jitter_ms * 1000;
    if target > elapsed_us {
        min_nat((target - elapsed_us) as nat, u64::MAX as nat)
    } else {
        0
    }
}

/// Whether a worker that has finished `iterations` requests starts another
/// at time `now_us`: the first request is always made, later ones only
/// before the deadline.
pub open spec fn continues(iterations: nat, now_us: nat, deadline_us: nat) -> bool {
    iterations == 0 || now_us < deadline_us
}

/// The pause after one request.
pub fn pacing_delay(nominal_us: u64, jitter_ms: u64, elapsed_us: u64) -> (r: u64)
    ensures
        r == sleep_after(nominal_us as nat, jitter_ms as nat, elapsed_us as nat),
{
    let target: u128 = nominal_us as u128 + jitter_ms as u128 * 1000;
    if target > elapsed_us as u128 {
        let left = target - elapsed_us as u128;
        if left > 0xffff_ffff_ffff_ffffu128 {
            0xffff_ffff_ffff_ffffu64
        } else {
            left as u64
        }
    } else {
        0
    }
}

/// How a run is carried out: which targets, how many workers, and at what
/// pace. There is one worker per target, and together the workers aim at
/// the configured rate; a rate of zero makes no worker.
pub struct RunPlan {
    pub selector: TargetSelector,
    pub workers: usize,
    pub rps: u32,
    pub period_us: u64,
    pub deadline_us: u64,
    pub jitter_ms: u64,
}

impl RunPlan {
    pub open spec fn wf(&self) -> bool {
        &&& self.selector.wf()
        &&& self.rps == 0 ==> self.workers == 0
        &&& self.rps > 0 ==> self.workers == self.selector.hosts_view().len()
        &&& self.period_us == nominal_period(self.workers as nat, self.rps as nat)
    }

    /// The plan for `config`: it fails exactly where the configuration's
    /// targets cannot make a selector.
    pub fn from_config(config: &Config) -> (r: Result<RunPlan, ConfigError>)
        ensures
            match r {
                Ok(p) => {
                    &&& config_target_error(config) is None
                    &&& p.wf()
                    &&& p.rps == config.rps
                    &&& p.deadline_us == deadline_of(config.duration as nat)
                    &&& p.jitter_ms == config.jitter
                },
                Err(e) => config_target_error(config) == Some(e),
            },
    {
        let selector = match TargetSelector::from_config(config) {
            Ok(s) => s,
            Err(e) => {
                return Err(e);
            },
        };
        let workers: usize = if config.rps == 0 {
            0
        } else {
            selector.len()
        };
        let period_us: u64 = if config.rps == 0 {
            0
        } else {
            let p: u128 = workers as u128 * 1_000_000 / config.rps as u128;
            if p > 0xffff_ffff_ffff_ffffu128 {
                0xffff_ffff_ffff_ffffu64
            } else {
                p as u64
            }
        };
        let d: u128 = config.duration as u128 * 1_000_000;
        let deadline_us: u64 = if d > 0xffff_ffff_ffff_ffffu128 {
            0xffff_ffff_ffff_ffffu64
        } else {
            d as u64
        };
        Ok(RunPlan { selector, workers, rps: config.rps, period_us, deadline_us, jitter_ms: config.jitter })
    }
}

/// Every plan with a positive rate starts at least one worker, and a fresh
/// worker makes its first request whatever the time: so every run with
/// `duration * rps > 0` records at least one attempt.
pub proof fn lemma_positive_rate_records(plan: &RunPlan, now_us: nat)
    requires
        plan.wf(),
        plan.rps > 0,
    ensures
        plan.workers >= 1,
        continues(0, now_us, plan.deadline_us as nat),
{
}

/// The decisions of one worker: it picks the target of each request, says
/// whether to make another, and how long to pause after each. It owns its
/// random generator, seeded on its own.
pub struct Worker {
    rng: StdRng,
    period_us: u64,
    jitter_ms: u64,
    deadline_us: u64,
    iterations: u64,
}

impl Worker {
    pub closed spec fn period(&self) -> nat {
        self.period_us as nat
    }

    pub closed spec fn jitter(&self) -> nat {
        self.jitter_ms as nat
    }

    pub closed spec fn deadline(&self) -> nat {
        self.deadline_us as nat
    }

    /// The number of requests this worker has finished (saturating).
    pub closed spec fn done(&self) -> nat {
        self.iterations as nat
    }

    /// A worker of `plan` whose generator is seeded with `seed`.
    pub fn new(plan: &RunPlan, seed: u64) -> (r: Worker)
        ensures
            r.done() == 0,
            r.period() == plan.period_us as nat,
            r.jitter() == plan.jitter_ms as nat,
            r.deadline() == plan.deadline_us as nat,
    {
        Worker {
            rng: rng_from_seed(seed),
            period_us: plan.period_us,
            jitter_ms: plan.jitter_ms,
            deadline_us: plan.deadline_us,
            iterations: 0,
        }
    }

    /// Whether to start another request at `now_us` microseconds into the run.
    pub fn keep_going(&self, now_us: u64) -> (r: bool)
        ensures
            r == continues(self.done(), now_us as nat, self.deadline()),
    {
        self.iterations == 0 || now_us < self.deadline_us
    }

    /// The target of the next request, drawn from this worker's generator.
    pub fn next_target(&mut self, selector: &TargetSelector) -> (i: usize)
        requires
            selector.wf(),
        ensures
            i < selector.hosts_view().len(),
            selector.hosts_view().len() == 1 ==> i == 0,
            final(self).done() == old(self).done(),
            final(self).period() == old(self).period(),
            final(self).jitter() == old(self).jitter(),
            final(self).deadline() == old(self).deadline(),
    {
        selector.select(&mut self.rng)
    }

    /// Marks a request of `elapsed_us` as finished and gives the pause
    /// before the next one: the rest of the period plus a jitter drawn below
    /// `jitter_ms` (none when it is zero).
    pub fn finish_request(&mut self, elapsed_us: u64) -> (r: u64)
        ensures
            final(self).done() == min_nat(old(self).done() + 1, u64::MAX as nat),
            final(self).period() == old(self).period(),
            final(self).jitter() == old(self).jitter(),
            final(self).deadline() == old(self).deadline(),
            exists|j: nat|
                (if old(self).jitter() == 0 { j == 0 } else { j < old(self).jitter() })
                    && r == sleep_after(old(self).period(), j, elapsed_us as nat),
    {
        if self.iterations < 0xffff_ffff_ffff_ffffu64 {
            self.iterations = self.iterations + 1;
        }
        let jitter: u64 = if self.jitter_ms == 0 {
            0
        } else {
            draw_below(&mut self.rng, self.jitter_ms)
        };
        let r = pacing_delay(self.period_us, jitter, elapsed_us);
        proof {
            assert((if old(self).jitter() == 0 { jitter as nat == 0 } else { jitter < old(self).jitter() })
                && r == sleep_after(old(self).period(), jitter as nat, elapsed_us as nat));
        }
        r
    }
}

} // verus!
