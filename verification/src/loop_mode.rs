use vstd::prelude::*;
use vstd::arithmetic::div_mod::{lemma_fundamental_div_mod, lemma_fundamental_div_mod_converse};
use crate::base::{mul_div, Fixed, FIXED_ONE};

verus! {

/// How a group repeats. The optional count is the number of loops after
/// which the group ends; without it the group loops for ever.
#[derive(Debug, Clone, Copy, PartialEq, Eq, Structural)]
pub enum ELoopMode {
    /// Play once, from start to end.
    Not,
    /// Restart from the start after each pass.
    Positive(Option<u16>),
    /// Play every pass backwards.
    Opposite(Option<u16>),
    /// Forwards, then backwards; the round trip is one loop.
    PositivePly(Option<u16>),
    /// Backwards, then forwards; the round trip is one loop.
    OppositePly(Option<u16>),
}

impl Default for ELoopMode {
    fn default() -> (r: ELoopMode)
        ensures
            r == ELoopMode::Not,
    {
        ELoopMode::Not
    }
}

/// The progress function that a loop mode selects.
#[derive(Debug, Clone, Copy, PartialEq, Eq, Structural)]
pub enum AmountCalc {
    Not,
    Positive,
    Opposite,
    PositivePly,
    OppositePly,
}

/// The number of whole passes of length `once_time` in `elapsed`.
pub open spec fn spec_cycle(once_time: int, elapsed: int) -> int {
    elapsed / once_time
}

/// How far into the current pass `elapsed` is, as a fraction in `[0, 1)`.
pub open spec fn spec_phase(once_time: int, elapsed: int) -> int {
    (elapsed % once_time) * FIXED_ONE / once_time
}

/// A pass count as it is handed out: cut off at the largest `u32`.
pub open spec fn spec_count(cycles: int) -> int {
    if cycles > u32::MAX {
        u32::MAX as int
    } else {
        cycles
    }
}

/// Progress without looping: `elapsed / once_time`, held at one.
pub open spec fn spec_amount_not(once_time: int, elapsed: int) -> (int, int) {
    (
        if elapsed >= once_time {
            FIXED_ONE as int
        } else {
            spec_phase(once_time, elapsed)
        },
        spec_count(spec_cycle(once_time, elapsed)),
    )
}

/// Progress of a forward loop.
pub open spec fn spec_amount_positive(once_time: int, elapsed: int) -> (int, int) {
    (spec_phase(once_time, elapsed), spec_count(spec_cycle(once_time, elapsed)))
}

/// Progress of a backward loop.
pub open spec fn spec_amount_opposite(once_time: int, elapsed: int) -> (int, int) {
    (FIXED_ONE - spec_phase(once_time, elapsed), spec_count(spec_cycle(once_time, elapsed)))
}

/// Progress of a ping-pong that starts forwards.
pub open spec fn spec_amount_positive_ply(once_time: int, elapsed: int) -> (int, int) {
    (
        if spec_cycle(once_time, elapsed) % 2 == 0 {
            spec_phase(once_time, elapsed)
        } else {
            FIXED_ONE - spec_phase(once_time, elapsed)
        },
        spec_count(spec_cycle(once_time, elapsed) / 2),
    )
}

/// Progress of a ping-pong that starts backwards.
pub open spec fn spec_amount_opposite_ply(once_time: int, elapsed: int) -> (int, int) {
    (
        if spec_cycle(once_time, elapsed) % 2 == 0 {
            FIXED_ONE - spec_phase(once_time, elapsed)
        } else {
            spec_phase(once_time, elapsed)
        },
        spec_count(spec_cycle(once_time, elapsed) / 2),
    )
}

/// The progress function of a loop mode.
pub open spec fn spec_amount_calc(mode: ELoopMode) -> AmountCalc {
    match mode {
        ELoopMode::Not => AmountCalc::Not,
        ELoopMode::Positive(_) => AmountCalc::Positive,
        ELoopMode::Opposite(_) => AmountCalc::Opposite,
        ELoopMode::PositivePly(_) => AmountCalc::PositivePly,
        ELoopMode::OppositePly(_) => AmountCalc::OppositePly,
    }
}

/// Selects the progress function of a loop mode.
pub fn get_amount_calc(mode: ELoopMode) -> (r: AmountCalc)
    ensures
        r == spec_amount_calc(mode),
{
    match mode {
        ELoopMode::Not => AmountCalc::Not,
        ELoopMode::Positive(_) => AmountCalc::Positive,
        ELoopMode::Opposite(_) => AmountCalc::Opposite,
        ELoopMode::PositivePly(_) => AmountCalc::PositivePly,
        ELoopMode::OppositePly(_) => AmountCalc::OppositePly,
    }
}

/// The phase of a pass lies in `[0, 1)`.
pub proof fn lemma_phase_bounds(once_time: int, elapsed: int)
    requires
        once_time > 0,
        elapsed >= 0,
    ensures
        0 <= spec_phase(once_time, elapsed) < FIXED_ONE,
{
    let rest: int = elapsed % once_time;
    assert(0 <= rest < once_time);
    assert(0 <= rest * 1_000_000 / once_time < 1_000_000) by (nonlinear_arith)
        requires
            0 <= rest < once_time,
    ;
}

/// The pass count does not go down as time goes on.
pub proof fn lemma_cycle_monotonic(once_time: int, earlier: int, later: int)
    requires
        once_time > 0,
        0 <= earlier <= later,
    ensures
        0 <= spec_cycle(once_time, earlier) <= spec_cycle(once_time, later),
        spec_cycle(once_time, earlier) / 2 <= spec_cycle(once_time, later) / 2,
{
    assert(0 <= earlier / once_time <= later / once_time) by (nonlinear_arith)
        requires
            once_time > 0,
            0 <= earlier <= later,
    ;
}

fn phase(once_time: Fixed, elapsed: Fixed) -> (r: Fixed)
    requires
        once_time > 0,
    ensures
        r == spec_phase(once_time as int, elapsed as int),
        r < FIXED_ONE,
{
    proof {
        lemma_phase_bounds(once_time as int, elapsed as int);
    }
    mul_div(elapsed % once_time, FIXED_ONE, once_time)
}

fn count(cycles: u64) -> (r: u32)
    ensures
        r == spec_count(cycles as int),
{
    if cycles > 0xffff_ffff {
        0xffff_ffff
    } else {
        cycles as u32
    }
}

fn amount_not(once_time: Fixed, elapsed: Fixed) -> (r: (Fixed, u32))
    requires
        once_time > 0,
    ensures
        (r.0 as int, r.1 as int) == spec_amount_not(once_time as int, elapsed as int),
        r.0 <= FIXED_ONE,
{
    let loop_count: u32 = count(elapsed / once_time);
    let amount: Fixed = if elapsed >= once_time {
        FIXED_ONE
    } else {
        phase(once_time, elapsed)
    };
    (amount, loop_count)
}

fn amount_positive(once_time: Fixed, elapsed: Fixed) -> (r: (Fixed, u32))
    requires
        once_time > 0,
    ensures
        (r.0 as int, r.1 as int) == spec_amount_positive(once_time as int, elapsed as int),
        r.0 <= FIXED_ONE,
{
    (phase(once_time, elapsed), count(elapsed / once_time))
}

fn amount_opposite(once_time: Fixed, elapsed: Fixed) -> (r: (Fixed, u32))
    requires
        once_time > 0,
    ensures
        (r.0 as int, r.1 as int) == spec_amount_opposite(once_time as int, elapsed as int),
        r.0 <= FIXED_ONE,
{
    (FIXED_ONE - phase(once_time, elapsed), count(elapsed / once_time))
}

fn amount_positive_ply(once_time: Fixed, elapsed: Fixed) -> (r: (Fixed, u32))
    requires
        once_time > 0,
    ensures
        (r.0 as int, r.1 as int) == spec_amount_positive_ply(once_time as int, elapsed as int),
        r.0 <= FIXED_ONE,
{
    let cycles: u64 = elapsed / once_time;
    let progress: Fixed = phase(once_time, elapsed);
    let amount: Fixed = if cycles % 2 == 0 {
        progress
    } else {
        FIXED_ONE - progress
    };
    (amount, count(cycles / 2))
}

fn amount_opposite_ply(once_time: Fixed, elapsed: Fixed) -> (r: (Fixed, u32))
    requires
        once_time > 0,
    ensures
        (r.0 as int, r.1 as int) == spec_amount_opposite_ply(once_time as int, elapsed as int),
        r.0 <= FIXED_ONE,
{
    let cycles: u64 = elapsed / once_time;
    let progress: Fixed = phase(once_time, elapsed);
    let amount: Fixed = if cycles % 2 == 0 {
        FIXED_ONE - progress
    } else {
        progress
    };
    (amount, count(cycles / 2))
}

impl AmountCalc {
    /// The progress and the loop count after `elapsed` of running time,
    /// where one pass takes `once_time`.
    pub open spec fn spec_call(self, once_time: int, elapsed: int) -> (int, int) {
        match self {
            AmountCalc::Not => spec_amount_not(once_time, elapsed),
            AmountCalc::Positive => spec_amount_positive(once_time, elapsed),
            AmountCalc::Opposite => spec_amount_opposite(once_time, elapsed),
            AmountCalc::PositivePly => spec_amount_positive_ply(once_time, elapsed),
            AmountCalc::OppositePly => spec_amount_opposite_ply(once_time, elapsed),
        }
    }

    /// Computes the progress in `[0, 1]` and the loop count.
    pub fn call(&self, once_time: Fixed, elapsed: Fixed) -> (r: (Fixed, u32))
        requires
            once_time > 0,
        ensures
            (r.0 as int, r.1 as int) == self.spec_call(once_time as int, elapsed as int),
            r.0 <= FIXED_ONE,
    {
        match self {
            AmountCalc::Not => amount_not(once_time, elapsed),
            AmountCalc::Positive => amount_positive(once_time, elapsed),
            AmountCalc::Opposite => amount_opposite(once_time, elapsed),
            AmountCalc::PositivePly => amount_positive_ply(once_time, elapsed),
            AmountCalc::OppositePly => amount_opposite_ply(once_time, elapsed),
        }
    }

    /// The loop count never goes down as the running time goes on.
    pub proof fn lemma_count_monotonic(self, once_time: int, earlier: int, later: int)
        requires
            once_time > 0,
            0 <= earlier <= later,
        ensures
            self.spec_call(once_time, earlier).1 <= self.spec_call(once_time, later).1,
    {
        lemma_cycle_monotonic(once_time, earlier, later);
    }

    /// Before the first pass is over the loop count is zero.
    pub proof fn lemma_count_in_first_pass(self, once_time: int, elapsed: int)
        requires
            0 <= elapsed < once_time,
        ensures
            self.spec_call(once_time, elapsed).1 == 0,
    {
        assert(elapsed / once_time == 0) by (nonlinear_arith)
            requires
                0 <= elapsed < once_time,
        ;
    }
}

/// A ping-pong repeats every two passes: two passes later the progress is
/// the same, and one more loop has been counted.
pub proof fn lemma_ply_period(once_time: int, elapsed: int)
    requires
        once_time > 0,
        elapsed >= 0,
    ensures
        spec_amount_positive_ply(once_time, elapsed + 2 * once_time).0 == spec_amount_positive_ply(
            once_time,
            elapsed,
        ).0,
        spec_amount_opposite_ply(once_time, elapsed + 2 * once_time).0 == spec_amount_opposite_ply(
            once_time,
            elapsed,
        ).0,
        spec_cycle(once_time, elapsed + 2 * once_time) / 2 == spec_cycle(once_time, elapsed) / 2 + 1,
{
    let cycles: int = elapsed / once_time;
    let rest: int = elapsed % once_time;
    lemma_fundamental_div_mod(elapsed, once_time);
    assert(elapsed + 2 * once_time == (cycles + 2) * once_time + rest) by (nonlinear_arith)
        requires
            elapsed == once_time * cycles + rest,
    ;
    lemma_fundamental_div_mod_converse(elapsed + 2 * once_time, once_time, cycles + 2, rest);
}

/// What the progress function of a ping-pong hands out two passes later, as
/// far as the machine can count: the same progress and one loop more. The
/// later time must be a time, and the loop count must not have reached the
/// largest count, at which it stands still.
pub proof fn lemma_ply_period_call(mode: AmountCalc, once_time: Fixed, elapsed: Fixed)
    requires
        mode == AmountCalc::PositivePly || mode == AmountCalc::OppositePly,
        once_time > 0,
        elapsed + 2 * once_time <= Fixed::MAX,
        mode.spec_call(once_time as int, elapsed as int).1 < u32::MAX,
    ensures
        mode.spec_call(once_time as int, elapsed + 2 * once_time).0 == mode.spec_call(
            once_time as int,
            elapsed as int,
        ).0,
        mode.spec_call(once_time as int, elapsed + 2 * once_time).1 == mode.spec_call(
            once_time as int,
            elapsed as int,
        ).1 + 1,
{
    lemma_ply_period(once_time as int, elapsed as int);
}

} // verus!
