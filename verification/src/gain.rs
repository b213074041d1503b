//! Step counting of the linear gain ramp: how many samples a change of
//! gain is spread over, and what each sample does.
use vstd::prelude::*;

verus! {

/// What one sample of a ramp does to the gain.
#[derive(Debug, Clone, Copy, PartialEq, Eq, Structural)]
pub enum RampTick {
    /// No ramp is running: the gain holds.
    Hold,
    /// The gain moves one step towards the target.
    Step,
    /// Last step: the gain lands exactly on the target.
    Arrive,
}

/// The tick and the steps left after one sample, from `steps` left.
pub open spec fn spec_tick(steps: u32) -> (RampTick, u32) {
    if steps == 0 {
        (RampTick::Hold, 0)
    } else if steps == 1 {
        (RampTick::Arrive, 0)
    } else {
        (RampTick::Step, (steps - 1) as u32)
    }
}

/// The ticks of `m` samples, from `steps` left.
pub open spec fn ticks(steps: u32, m: nat) -> Seq<RampTick>
    decreases m,
{
    if m == 0 {
        Seq::empty()
    } else {
        seq![spec_tick(steps).0] + ticks(spec_tick(steps).1, (m - 1) as nat)
    }
}

/// Number of samples a ramp of `ramp_samples` takes: at least one.
pub open spec fn ramp_len(ramp_samples: u32) -> u32 {
    if ramp_samples > 1 {
        ramp_samples
    } else {
        1
    }
}

/// Sample counter of a gain ramp.
#[derive(Debug, Clone, Copy)]
pub struct GainRamp {
    pub steps_remaining: u32,
}

impl GainRamp {
    /// No ramp running.
    pub fn new() -> (r: Self)
        ensures
            r.steps_remaining == 0,
    {
        GainRamp { steps_remaining: 0 }
    }

    /// Starts a ramp over `ramp_samples` samples (at least one) and returns
    /// that number, by which the distance to the target is divided.
    pub fn start(&mut self, ramp_samples: u32) -> (steps: u32)
        ensures
            steps == ramp_len(ramp_samples),
            steps == (if ramp_samples > 1 { ramp_samples } else { 1 }),
            final(self).steps_remaining == steps,
    {
        let steps = if ramp_samples > 1 {
            ramp_samples
        } else {
            1
        };
        self.steps_remaining = steps;
        steps
    }

    /// One sample of the ramp.
    pub fn tick(&mut self) -> (t: RampTick)
        ensures
            (t, final(self).steps_remaining) == spec_tick(old(self).steps_remaining),
            old(self).steps_remaining == 0 ==> t == RampTick::Hold && final(self).steps_remaining == 0,
            old(self).steps_remaining == 1 ==> t == RampTick::Arrive && final(self).steps_remaining == 0,
            old(self).steps_remaining > 1 ==> t == RampTick::Step && final(self).steps_remaining
                == old(self).steps_remaining - 1,
    {
        if self.steps_remaining == 0 {
            RampTick::Hold
        } else {
            self.steps_remaining = self.steps_remaining - 1;
            if self.steps_remaining == 0 {
                RampTick::Arrive
            } else {
                RampTick::Step
            }
        }
    }
}

/// A ramp started over `n` samples makes `max(n, 1) - 1` steps, then lands
/// on the target in the next sample, then holds.
pub proof fn lemma_ramp_schedule(steps: u32, m: nat)
    ensures
        ticks(steps, m).len() == m,
        forall|i: int|
            0 <= i < m ==> #[trigger] ticks(steps, m)[i] == (if i + 1 < steps {
                RampTick::Step
            } else if i + 1 == steps {
                RampTick::Arrive
            } else {
                RampTick::Hold
            }),
    decreases m,
{
    if m > 0 {
        let (t, next) = spec_tick(steps);
        lemma_ramp_schedule(next, (m - 1) as nat);
        assert forall|i: int| 0 <= i < m implies #[trigger] ticks(steps, m)[i] == (if i + 1 < steps {
            RampTick::Step
        } else if i + 1 == steps {
            RampTick::Arrive
        } else {
            RampTick::Hold
        }) by {
            if i > 0 {
                assert(ticks(steps, m)[i] == ticks(next, (m - 1) as nat)[i - 1]);
            }
        }
    }
}

/// A ramp started over `n` samples (0 counting as 1) steps in each of its
/// first `max(n, 1) - 1` samples, lands on the target in sample `max(n, 1)`,
/// and holds afterwards.
pub proof fn lemma_ramp_from_start(n: u32, m: nat)
    ensures
        ticks(ramp_len(n), m).len() == m,
        forall|i: int|
            0 <= i < m ==> #[trigger] ticks(ramp_len(n), m)[i] == (if i + 1 < (if n > 1 {
                n as int
            } else {
                1
            }) {
                RampTick::Step
            } else if i + 1 == (if n > 1 { n as int } else { 1 }) {
                RampTick::Arrive
            } else {
                RampTick::Hold
            }),
{
    lemma_ramp_schedule(ramp_len(n), m);
}

} // verus!
