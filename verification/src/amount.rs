use vstd::prelude::*;
use crate::base::{Fixed, FIXED_ONE};

verus! {

/// Where a step function jumps.
#[derive(Debug, Clone, Copy, PartialEq, Eq, Structural)]
pub enum EStepMode {
    /// The first jump happens at the very start.
    JumpStart,
    /// The last jump happens at the very end.
    JumpEnd,
    /// No jump at either end: the first and the last step both hold.
    JumpNone,
    /// Jumps at both ends.
    JumpBoth,
}

/// The number of segments of a sampled shaper.
pub const SAMPLE_SEGMENTS: u64 = 32;

/// A progress shaper: a map from `[0, 1]` to `[0, 1]` that is applied to the
/// progress of a whole run, or handed to the curve for use between two frames.
#[derive(Debug, Clone, Copy, PartialEq, Eq)]
pub enum AnimationAmountCalc {
    /// The identity.
    Linear,
    /// A staircase with the given number of steps.
    Steps(u16, EStepMode),
    /// Any other shape, such as an ease: its values at 33 evenly spaced
    /// points from 0 to 1, each a fixed-point number held at one, joined by
    /// straight lines.
    Sampled([u32; 33]),
}

/// `amount`, held at one.
pub open spec fn spec_clamp(amount: int) -> int {
    if amount > FIXED_ONE {
        FIXED_ONE as int
    } else {
        amount
    }
}

/// The index of the step that `amount < 1` falls on.
pub open spec fn spec_step_index(steps: int, amount: int) -> int {
    amount * steps / (FIXED_ONE as int)
}

/// The numerator and the denominator of a step function's value on the step
/// `index`.
pub open spec fn spec_step_fraction(steps: int, mode: EStepMode, index: int) -> (int, int) {
    match mode {
        EStepMode::JumpStart => (index + 1, if steps < 1 { 1 } else { steps }),
        EStepMode::JumpEnd => (index, if steps < 1 { 1 } else { steps }),
        EStepMode::JumpNone => (index, if steps < 2 { 1 } else { steps - 1 }),
        EStepMode::JumpBoth => (index + 1, steps + 1),
    }
}

/// The value of a step function: one at the end, and before it the fraction
/// of the step that `amount` falls on.
pub open spec fn spec_steps(steps: int, mode: EStepMode, amount: int) -> int {
    if amount >= FIXED_ONE {
        FIXED_ONE as int
    } else {
        let fraction = spec_step_fraction(steps, mode, spec_step_index(steps, amount));
        spec_clamp(fraction.0 * FIXED_ONE / fraction.1)
    }
}

/// The sample at `index`, held at one.
pub open spec fn spec_sample(samples: Seq<u32>, index: int) -> int {
    spec_clamp(samples[index] as int)
}

/// The value of a sampled shape: on the straight line between the two
/// samples that `amount <= 1` lies between.
pub open spec fn spec_sampled(samples: Seq<u32>, amount: int) -> int {
    let position = amount * SAMPLE_SEGMENTS;
    let index = position / (FIXED_ONE as int);
    let rest = position % (FIXED_ONE as int);
    if index >= SAMPLE_SEGMENTS {
        spec_sample(samples, SAMPLE_SEGMENTS as int)
    } else {
        (spec_sample(samples, index) * (FIXED_ONE - rest) + spec_sample(samples, index + 1) * rest)
            / (FIXED_ONE as int)
    }
}

/// A value between two samples is not above one.
pub proof fn lemma_sampled_bounds(low: int, high: int, rest: int)
    requires
        0 <= low <= FIXED_ONE,
        0 <= high <= FIXED_ONE,
        0 <= rest < FIXED_ONE,
    ensures
        0 <= (low * (FIXED_ONE - rest) + high * rest) / (FIXED_ONE as int) <= FIXED_ONE,
        0 <= low * (FIXED_ONE - rest) <= 1_000_000 * 1_000_000,
        0 <= high * rest <= 1_000_000 * 1_000_000,
{
    assert(0 <= low * (1_000_000 - rest) <= 1_000_000 * (1_000_000 - rest)) by (nonlinear_arith)
        requires
            0 <= low <= 1_000_000,
            0 <= rest < 1_000_000,
    ;
    assert(0 <= high * rest <= 1_000_000 * rest) by (nonlinear_arith)
        requires
            0 <= high <= 1_000_000,
            0 <= rest < 1_000_000,
    ;
}

impl Default for AnimationAmountCalc {
    fn default() -> (r: AnimationAmountCalc)
        ensures
            r == AnimationAmountCalc::Linear,
    {
        AnimationAmountCalc::Linear
    }
}

impl AnimationAmountCalc {
    /// The shaped progress.
    pub open spec fn spec_calc(self, amount: int) -> int {
        match self {
            AnimationAmountCalc::Linear => spec_clamp(amount),
            AnimationAmountCalc::Steps(steps, mode) => spec_steps(steps as int, mode, amount),
            AnimationAmountCalc::Sampled(samples) => spec_sampled(samples@, spec_clamp(amount)),
        }
    }

    /// A shape given by its values at 33 evenly spaced points.
    pub fn from_samples(samples: [u32; 33]) -> (r: AnimationAmountCalc)
        ensures
            r == AnimationAmountCalc::Sampled(samples),
    {
        AnimationAmountCalc::Sampled(samples)
    }

    /// A staircase of `step` steps.
    pub fn from_steps(step: u16, mode: EStepMode) -> (r: AnimationAmountCalc)
        ensures
            r == AnimationAmountCalc::Steps(step, mode),
    {
        AnimationAmountCalc::Steps(step, mode)
    }

    /// Shapes a progress. The argument is read as held at one, and so is the
    /// result.
    pub fn calc(&self, amount: Fixed) -> (r: Fixed)
        ensures
            r == self.spec_calc(amount as int),
            r <= FIXED_ONE,
    {
        match self {
            AnimationAmountCalc::Linear => {
                if amount > FIXED_ONE {
                    FIXED_ONE
                } else {
                    amount
                }
            },
            AnimationAmountCalc::Steps(steps, mode) => {
                if amount >= FIXED_ONE {
                    FIXED_ONE
                } else {
                    let count: u64 = *steps as u64;
                    assert(amount * count <= 0xffff_ffff_ffff) by (nonlinear_arith)
                        requires
                            amount < 1_000_000,
                            count <= 0xffff,
                    ;
                    let index: u64 = amount * count / FIXED_ONE;
                    let (numerator, denominator): (u64, u64) = match mode {
                        EStepMode::JumpStart => (index + 1, if count < 1 { 1 } else { count }),
                        EStepMode::JumpEnd => (index, if count < 1 { 1 } else { count }),
                        EStepMode::JumpNone => (index, if count < 2 { 1 } else { count - 1 }),
                        EStepMode::JumpBoth => (index + 1, count + 1),
                    };
                    let value: u64 = numerator * FIXED_ONE / denominator;
                    if value > FIXED_ONE {
                        FIXED_ONE
                    } else {
                        value
                    }
                }
            },
            AnimationAmountCalc::Sampled(samples) => {
                let held: Fixed = if amount > FIXED_ONE {
                    FIXED_ONE
                } else {
                    amount
                };
                let position: u64 = held * SAMPLE_SEGMENTS;
                let index: u64 = position / FIXED_ONE;
                let rest: u64 = position % FIXED_ONE;
                if index >= SAMPLE_SEGMENTS {
                    sample(samples, SAMPLE_SEGMENTS)
                } else {
                    let low: u64 = sample(samples, index);
                    let high: u64 = sample(samples, index + 1);
                    proof {
                        lemma_sampled_bounds(low as int, high as int, rest as int);
                    }
                    (low * (FIXED_ONE - rest) + high * rest) / FIXED_ONE
                }
            },
        }
    }

    /// A shaped progress lies in `[0, 1]`.
    pub proof fn lemma_calc_bounds(self, amount: int)
        requires
            amount >= 0,
        ensures
            0 <= self.spec_calc(amount) <= FIXED_ONE,
    {
        match self {
            AnimationAmountCalc::Linear => {},
            AnimationAmountCalc::Steps(steps, mode) => {
                if amount < FIXED_ONE {
                    let index: int = spec_step_index(steps as int, amount);
                    assert(0 <= amount * steps / 1_000_000) by (nonlinear_arith)
                        requires
                            amount >= 0,
                            steps >= 0,
                    ;
                    let fraction = spec_step_fraction(steps as int, mode, index);
                    assert(0 <= fraction.0 * 1_000_000 / fraction.1) by (nonlinear_arith)
                        requires
                            fraction.0 >= 0,
                            fraction.1 > 0,
                    ;
                }
            },
            AnimationAmountCalc::Sampled(samples) => {
                let position = spec_clamp(amount) * SAMPLE_SEGMENTS;
                let index = position / (FIXED_ONE as int);
                let rest = position % (FIXED_ONE as int);
                if index < SAMPLE_SEGMENTS {
                    lemma_sampled_bounds(
                        spec_sample(samples@, index),
                        spec_sample(samples@, index + 1),
                        rest,
                    );
                }
            },
        }
    }
}

fn sample(samples: &[u32; 33], index: u64) -> (r: u64)
    requires
        index <= SAMPLE_SEGMENTS,
    ensures
        r == spec_sample(samples@, index as int),
        r <= FIXED_ONE,
{
    let value: u64 = samples[index as usize] as u64;
    if value > FIXED_ONE {
        FIXED_ONE
    } else {
        value
    }
}

} // verus!
