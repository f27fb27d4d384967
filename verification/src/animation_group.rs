use vstd::prelude::*;
use crate::amount::AnimationAmountCalc;
use crate::animation::AnimationInfo;
use crate::base::{
    fixed_add, fixed_div, fixed_mul, fixed_product, fixed_quotient, mul_div, saturating_sum, scaled,
    EFillMode, Fixed, FramePerSecond, TimeMS, FIXED_ONE,
};
use crate::error::EAnimationError;
use crate::loop_mode::{get_amount_calc, spec_amount_calc, AmountCalc, ELoopMode};
use crate::runtime_info::{
    lemma_spec_insert_wf, spec_insert, spec_staged_wf, RuntimeInfo, RuntimeInfoMap, StagedInfos,
};
use crate::target_animation::TargetAnimation;
use crate::target_modifier::{IDAnimatableAttr, IDAnimatableTarget, TAnimatableTargetModifier};

verus! {

/// The key of a group: the slot it sits in, and the generation of that slot
/// at the time the group was made.
#[derive(Debug, Clone, Copy, PartialEq, Eq, Structural, Hash)]
pub struct AnimationGroupID {
    pub index: u32,
    pub version: u32,
}

impl AnimationGroupID {
    /// Whether this is the key that names no group.
    pub open spec fn spec_is_null(self) -> bool {
        self.index == u32::MAX && self.version == u32::MAX
    }

    /// The key that names no group.
    pub fn null() -> (r: AnimationGroupID)
        ensures
            r.spec_is_null(),
    {
        AnimationGroupID { index: u32::MAX, version: u32::MAX }
    }

    pub fn is_null(&self) -> (r: bool)
        ensures
            r == self.spec_is_null(),
    {
        self.index == u32::MAX && self.version == u32::MAX
    }
}

/// What a group publishes about itself each tick.
#[derive(Debug, Clone, Copy, PartialEq, Eq, Structural)]
pub struct AnimationGroupRuntimeInfo {
    /// The sampling position before this tick, in seconds.
    pub last_amount_in_second: Fixed,
    /// The sampling position, in seconds.
    pub amount_in_second: Fixed,
    /// The number of loops completed.
    pub looped_count: u32,
    /// Whether the group is active.
    pub is_playing: bool,
    /// Whether a loop was completed in this tick.
    pub loop_event: bool,
    /// Whether the run began in this tick.
    pub start_event: bool,
    /// Whether the run ended in this tick.
    pub end_event: bool,
}

/// The frame rate of the reference clock on which frame positions are
/// measured.
pub const BASE_FPS: FramePerSecond = 60;

/// A run counts as being at its start while its running time is below
/// this: a thousandth of a millisecond.
pub const START_TOLERANCE_MS: TimeMS = 1_000;

/// The length of a frame at the highest frame rate.
pub const MIN_FRAME_MS: TimeMS = 15_258;

/// The clock and the settings of a group.
#[derive(Debug, Clone, Copy, PartialEq, Eq)]
pub struct GroupState {
    pub id: AnimationGroupID,
    /// The number of loops after which the run ends; none to loop for ever.
    pub loop_count: Option<u32>,
    /// By how much the running time advances per unit of tick time.
    pub speed: Fixed,
    pub fill_mode: EFillMode,
    /// The frame at which a pass begins.
    pub from: Fixed,
    /// The frame at which a pass ends.
    pub to: Fixed,
    /// The delay before the run begins.
    pub delay_time_ms: TimeMS,
    /// How much of the delay has gone by.
    pub running_delay_time_ms: TimeMS,
    /// How long the run has been going, scaled by the speed.
    pub running_time_ms: TimeMS,
    /// The number of loops completed.
    pub looped_count: u32,
    pub loop_mode: ELoopMode,
    /// The tick time gathered since the last tick that was let through.
    pub delta_ms_record: TimeMS,
    /// The length of a frame at the running frame rate.
    pub frame_ms: TimeMS,
    /// The longest of the group's curves, in frames of the reference clock.
    pub max_frame: Fixed,
    /// A length that overrides `max_frame`.
    pub force_max_frame: Option<Fixed>,
    /// The length of one pass.
    pub once_time_ms: TimeMS,
    pub is_playing: bool,
    pub blend_weight: Fixed,
    /// The sampling position, in seconds of the reference clock.
    pub amount_in_second: Fixed,
    /// The progress function of the loop mode.
    pub amount: AmountCalc,
    /// The shaper of the whole run.
    pub amount_calc: AnimationAmountCalc,
    /// The shaper that the curves apply between two key frames.
    pub amount_calc_between_frame: AnimationAmountCalc,
    /// Lets every tick through the frame gate.
    pub debug: bool,
}

/// The progress at which a mode holds while the delay runs.
pub open spec fn spec_hold_amount(mode: ELoopMode) -> Fixed {
    match mode {
        ELoopMode::Not => 0,
        ELoopMode::Positive(_) => 0,
        ELoopMode::Opposite(_) => FIXED_ONE,
        ELoopMode::PositivePly(_) => 0,
        ELoopMode::OppositePly(_) => FIXED_ONE,
    }
}

/// The progress at which a mode holds after the end.
pub open spec fn spec_terminal_amount(mode: ELoopMode) -> Fixed {
    match mode {
        ELoopMode::Not => FIXED_ONE,
        ELoopMode::Positive(_) => FIXED_ONE,
        ELoopMode::Opposite(_) => 0,
        ELoopMode::PositivePly(_) => 0,
        ELoopMode::OppositePly(_) => FIXED_ONE,
    }
}

/// The number of loops after which a mode ends.
pub open spec fn spec_loop_limit(mode: ELoopMode) -> Option<u32> {
    match mode {
        ELoopMode::Not => Some(1u32),
        ELoopMode::Positive(limit) | ELoopMode::Opposite(limit) | ELoopMode::PositivePly(limit)
        | ELoopMode::OppositePly(limit) => match limit {
            Some(n) => Some(n as u32),
            None => None,
        },
    }
}

/// Whether a mode begins at the end of its frame range.
pub open spec fn spec_starts_at_end(mode: ELoopMode) -> bool {
    mode is Opposite || mode is OppositePly
}

/// The length of a frame, in milliseconds, at a frame rate.
pub open spec fn spec_frame_ms(frame_per_second: FramePerSecond) -> int {
    1000 * FIXED_ONE / (frame_per_second as int)
}

/// The arguments of a start.
pub struct StartOptions {
    /// By how much the running time advances per unit of tick time; 1 is the
    /// design speed.
    pub speed: Fixed,
    pub loop_mode: ELoopMode,
    /// The frame at which a pass begins, on the reference clock.
    pub from: Fixed,
    /// The frame at which a pass ends, on the reference clock.
    pub to: Fixed,
    /// The frame rate at which the group lets ticks through.
    pub frame_per_second: FramePerSecond,
    /// The shaper that the curves apply between two key frames.
    pub amount_calc_between_frame: AnimationAmountCalc,
    /// The delay before the run begins, in milliseconds.
    pub delay_time_ms: TimeMS,
    pub fill_mode: EFillMode,
}

impl AnimationGroupRuntimeInfo {
    /// The record of a group that has never run.
    pub open spec fn spec_idle() -> AnimationGroupRuntimeInfo {
        AnimationGroupRuntimeInfo {
            last_amount_in_second: 0,
            amount_in_second: 0,
            looped_count: 0,
            is_playing: false,
            loop_event: false,
            start_event: false,
            end_event: false,
        }
    }

    /// The record of a group that has never run.
    pub fn idle() -> (r: AnimationGroupRuntimeInfo)
        ensures
            r == AnimationGroupRuntimeInfo::spec_idle(),
    {
        AnimationGroupRuntimeInfo {
            last_amount_in_second: 0,
            amount_in_second: 0,
            looped_count: 0,
            is_playing: false,
            loop_event: false,
            start_event: false,
            end_event: false,
        }
    }
}

impl GroupState {
    fn seconds_at(&self, progress: Fixed) -> (r: Fixed)
        ensures
            r == self.spec_seconds_at(progress as int),
    {
        fixed_add(
            mul_div(progress, self.once_time_ms, 1000 * FIXED_ONE),
            self.from / (BASE_FPS as u64),
        )
    }

    fn guarded_once_time(&self) -> (r: Fixed)
        requires
            MIN_FRAME_MS <= self.frame_ms <= 1000 * FIXED_ONE,
        ensures
            r == self.spec_guarded_once_time(),
            r > 0,
    {
        let half: Fixed = self.frame_ms / 2;
        if self.once_time_ms > half && self.once_time_ms - half > half {
            self.once_time_ms - half
        } else {
            half
        }
    }

    /// The state of a new group.
    pub open spec fn spec_new() -> GroupState {
        GroupState {
            id: AnimationGroupID { index: u32::MAX, version: u32::MAX },
            loop_count: Some(1u32),
            speed: FIXED_ONE,
            fill_mode: EFillMode::NONE,
            from: 0,
            to: FIXED_ONE,
            delay_time_ms: 0,
            running_delay_time_ms: 0,
            running_time_ms: 0,
            looped_count: 0,
            loop_mode: ELoopMode::Not,
            delta_ms_record: 0,
            frame_ms: 16_600_000,
            max_frame: 0,
            force_max_frame: None,
            once_time_ms: FIXED_ONE,
            is_playing: false,
            blend_weight: FIXED_ONE,
            amount_in_second: 0,
            amount: AmountCalc::Not,
            amount_calc: AnimationAmountCalc::Linear,
            amount_calc_between_frame: AnimationAmountCalc::Linear,
            debug: false,
        }
    }

    /// What the clock relies on from tick to tick.
    pub open spec fn wf(self) -> bool {
        &&& MIN_FRAME_MS <= self.frame_ms <= 1000 * FIXED_ONE
        &&& self.from <= self.to
        &&& self.amount == spec_amount_calc(self.loop_mode)
        &&& self.loop_mode is Not ==> self.loop_count == Some(1u32)
        &&& self.is_playing ==> {
            &&& self.delta_ms_record < self.spec_gate()
            &&& self.spec_at_start() ==> self.delta_ms_record == 0
            &&& self.looped_count <= self.spec_progress().1
            &&& self.loop_mode is Not ==> self.looped_count == 0
        }
    }

    /// Whether the run is at its start: its running time is still next to
    /// nothing.
    pub open spec fn spec_at_start(self) -> bool {
        self.running_time_ms < START_TOLERANCE_MS
    }

    /// The total number of frames of the group: the forced length if there
    /// is one, else the longest curve.
    pub open spec fn spec_max_frame(self) -> Fixed {
        match self.force_max_frame {
            Some(frames) => frames,
            None => self.max_frame,
        }
    }

    /// The share of a frame that must have gone by before a tick is let
    /// through: three quarters.
    pub open spec fn spec_gate(self) -> int {
        self.frame_ms * 3 / 4
    }

    /// The length of a pass as the progress function sees it: half a frame
    /// shorter, and at least half a frame.
    pub open spec fn spec_guarded_once_time(self) -> int {
        if self.once_time_ms - self.frame_ms / 2 > self.frame_ms / 2 {
            self.once_time_ms - self.frame_ms / 2
        } else {
            (self.frame_ms / 2) as int
        }
    }

    /// The progress and the loop count at the present running time.
    pub open spec fn spec_progress(self) -> (int, int) {
        self.amount.spec_call(self.spec_guarded_once_time(), self.running_time_ms as int)
    }

    /// Whether the start delay is still running.
    pub open spec fn spec_in_delay(self) -> bool {
        self.delay_time_ms - self.running_delay_time_ms > self.spec_gate()
    }

    /// The sampling position, in seconds, of a shaped progress:
    /// `progress * once_time / 1000 + from / 60`.
    pub open spec fn spec_seconds_at(self, progress: int) -> int {
        saturating_sum(
            scaled(progress, self.once_time_ms as int, 1000 * FIXED_ONE),
            (self.from / (BASE_FPS as Fixed)) as int,
        )
    }

    /// Whether the loop count reached at the present running time ends the
    /// run.
    pub open spec fn spec_ends(self) -> bool {
        &&& self.spec_progress().1 != self.looped_count
        &&& self.loop_count matches Some(limit)
        &&& limit <= self.spec_progress().1
    }

    /// Whether a loop is completed at the present running time.
    pub open spec fn spec_loops(self) -> bool {
        self.spec_progress().1 != self.looped_count && !self.spec_ends()
    }

    /// Whether a tick past the delay is let through.
    pub open spec fn spec_gate_open(self, delta_ms: Fixed, start_event: bool) -> bool {
        ||| start_event
        ||| self.spec_at_start()
        ||| saturating_sum(self.delta_ms_record as int, delta_ms as int) >= self.spec_gate()
        ||| self.debug
    }

    /// Whether a tick stages evaluations.
    pub open spec fn spec_stages(self, delta_ms: Fixed, start_event: bool) -> bool {
        self.is_playing && if self.spec_in_delay() {
            self.fill_mode.fills_backwards()
        } else {
            self.spec_gate_open(delta_ms, start_event)
        }
    }

    /// The progress that a tick which is let through samples at.
    pub open spec fn spec_tick_amount(self) -> int {
        if self.spec_ends() && self.fill_mode.fills_forwards() {
            spec_terminal_amount(self.loop_mode) as int
        } else {
            self.spec_progress().0
        }
    }

    /// The state after a tick of `delta_ms`.
    pub open spec fn spec_anime(self, delta_ms: Fixed, start_event: bool) -> GroupState {
        if !self.is_playing {
            self
        } else if self.spec_in_delay() {
            GroupState {
                running_delay_time_ms: saturating_sum(
                    self.running_delay_time_ms as int,
                    delta_ms as int,
                ) as Fixed,
                amount_in_second: if self.fill_mode.fills_backwards() {
                    self.spec_seconds_at(spec_hold_amount(self.loop_mode) as int) as Fixed
                } else {
                    self.amount_in_second
                },
                ..self
            }
        } else if self.spec_gate_open(delta_ms, start_event) {
            GroupState {
                is_playing: !self.spec_ends(),
                looped_count: self.spec_progress().1 as u32,
                amount_in_second: self.spec_seconds_at(
                    self.amount_calc.spec_calc(self.spec_tick_amount()),
                ) as Fixed,
                running_time_ms: saturating_sum(
                    self.running_time_ms as int,
                    fixed_product(
                        saturating_sum(self.delta_ms_record as int, delta_ms as int),
                        self.speed as int,
                    ),
                ) as Fixed,
                delta_ms_record: 0,
                ..self
            }
        } else {
            GroupState {
                delta_ms_record: saturating_sum(self.delta_ms_record as int, delta_ms as int) as Fixed,
                ..self
            }
        }
    }

    /// The record of the group after a tick of `delta_ms`. A tick that ends
    /// the run clears the record's playing flag with the group's own.
    pub open spec fn spec_anime_info(
        self,
        delta_ms: Fixed,
        info: AnimationGroupRuntimeInfo,
    ) -> AnimationGroupRuntimeInfo {
        let after = self.spec_anime(delta_ms, info.start_event);
        if !self.is_playing {
            AnimationGroupRuntimeInfo { last_amount_in_second: info.amount_in_second, ..info }
        } else if self.spec_in_delay() {
            AnimationGroupRuntimeInfo {
                last_amount_in_second: info.amount_in_second,
                amount_in_second: if self.fill_mode.fills_backwards() {
                    after.amount_in_second
                } else {
                    info.amount_in_second
                },
                ..info
            }
        } else if self.spec_gate_open(delta_ms, info.start_event) {
            AnimationGroupRuntimeInfo {
                last_amount_in_second: info.amount_in_second,
                amount_in_second: after.amount_in_second,
                looped_count: after.looped_count,
                is_playing: info.is_playing && !self.spec_ends(),
                start_event: info.start_event || self.spec_at_start(),
                end_event: info.end_event || self.spec_ends(),
                loop_event: info.loop_event || self.spec_loops(),
            }
        } else {
            AnimationGroupRuntimeInfo { last_amount_in_second: info.amount_in_second, ..info }
        }
    }

    /// Whether a start with these arguments is taken.
    pub open spec fn spec_start_error(self, options: StartOptions) -> Option<EAnimationError> {
        if self.is_playing {
            Some(EAnimationError::AnimationGroupHasStarted)
        } else if options.frame_per_second == 0 {
            Some(EAnimationError::AnimationFramePerSecondCannotZero)
        } else {
            None
        }
    }

    /// The state after a start that is taken.
    pub open spec fn spec_start(self, options: StartOptions) -> GroupState {
        let from = if options.from <= options.to {
            options.from
        } else {
            options.to
        };
        let to = if options.from <= options.to {
            options.to
        } else {
            options.from
        };
        GroupState {
            is_playing: true,
            speed: options.speed,
            running_time_ms: 0,
            looped_count: 0,
            delta_ms_record: 0,
            delay_time_ms: options.delay_time_ms,
            running_delay_time_ms: 0,
            fill_mode: options.fill_mode,
            frame_ms: spec_frame_ms(options.frame_per_second) as Fixed,
            loop_mode: options.loop_mode,
            amount: spec_amount_calc(options.loop_mode),
            from,
            to,
            once_time_ms: scaled(to - from, 50, 3) as Fixed,
            amount_calc_between_frame: options.amount_calc_between_frame,
            loop_count: spec_loop_limit(options.loop_mode),
            amount_in_second: if spec_starts_at_end(options.loop_mode) {
                to / (BASE_FPS as Fixed)
            } else {
                from / (BASE_FPS as Fixed)
            },
            ..self
        }
    }

    /// The record of the group after a start that is taken: it says that the
    /// group is playing, from where the run begins, with no event and no loop.
    pub open spec fn spec_start_info(
        self,
        options: StartOptions,
        info: AnimationGroupRuntimeInfo,
    ) -> AnimationGroupRuntimeInfo {
        AnimationGroupRuntimeInfo {
            amount_in_second: self.spec_start(options).amount_in_second,
            last_amount_in_second: self.spec_start(options).amount_in_second,
            is_playing: true,
            start_event: false,
            loop_event: false,
            end_event: false,
            looped_count: 0,
        }
    }

    /// The evaluation that the group stages for one of its animations.
    pub open spec fn spec_runtime_info(self, animation: AnimationInfo) -> RuntimeInfo {
        RuntimeInfo {
            group_weight: self.blend_weight,
            amount_in_second: self.amount_in_second,
            attr: animation.attr,
            curve_id: animation.curve_id,
            amount_calc: self.amount_calc_between_frame,
        }
    }
}

impl GroupState {
    /// Whether a tick raises the start event: the group is playing, its
    /// delay is over, and its running time is still zero.
    pub open spec fn spec_raises_start(self) -> bool {
        self.is_playing && !self.spec_in_delay() && self.spec_at_start()
    }

    /// Whether a tick of `delta_ms` raises the end event.
    pub open spec fn spec_raises_end(self, delta_ms: Fixed) -> bool {
        &&& self.is_playing
        &&& !self.spec_in_delay()
        &&& self.spec_gate_open(delta_ms, false)
        &&& self.spec_ends()
    }

    /// Whether a tick of `delta_ms` raises the loop event.
    pub open spec fn spec_raises_loop(self, delta_ms: Fixed) -> bool {
        &&& self.is_playing
        &&& !self.spec_in_delay()
        &&& self.spec_gate_open(delta_ms, false)
        &&& self.spec_loops()
    }

    /// The state after the first `count` of a sequence of ticks.
    pub open spec fn spec_run(self, deltas: Seq<Fixed>, count: nat) -> GroupState
        decreases count,
    {
        if count == 0 {
            self
        } else {
            self.spec_run(deltas, (count - 1) as nat).spec_anime(deltas[count - 1], false)
        }
    }

    /// The number of start events that the first `count` ticks raise.
    pub open spec fn spec_run_starts(self, deltas: Seq<Fixed>, count: nat) -> nat
        decreases count,
    {
        if count == 0 {
            0
        } else {
            self.spec_run_starts(deltas, (count - 1) as nat) + if self.spec_run(
                deltas,
                (count - 1) as nat,
            ).spec_raises_start() {
                1nat
            } else {
                0nat
            }
        }
    }

    /// The number of end events that the first `count` ticks raise.
    pub open spec fn spec_run_ends(self, deltas: Seq<Fixed>, count: nat) -> nat
        decreases count,
    {
        if count == 0 {
            0
        } else {
            self.spec_run_ends(deltas, (count - 1) as nat) + if self.spec_run(
                deltas,
                (count - 1) as nat,
            ).spec_raises_end(deltas[count - 1]) {
                1nat
            } else {
                0nat
            }
        }
    }

    /// The number of loop events that the first `count` ticks raise.
    pub open spec fn spec_run_loops(self, deltas: Seq<Fixed>, count: nat) -> nat
        decreases count,
    {
        if count == 0 {
            0
        } else {
            self.spec_run_loops(deltas, (count - 1) as nat) + if self.spec_run(
                deltas,
                (count - 1) as nat,
            ).spec_raises_loop(deltas[count - 1]) {
                1nat
            } else {
                0nat
            }
        }
    }

    /// The events in the record after a tick are those that the tick
    /// raises, when the record came in with its events cleared.
    pub proof fn lemma_anime_info_events(self, delta_ms: Fixed, info: AnimationGroupRuntimeInfo)
        requires
            !info.start_event,
            !info.end_event,
            !info.loop_event,
        ensures
            self.spec_anime_info(delta_ms, info).start_event == self.spec_raises_start(),
            self.spec_anime_info(delta_ms, info).end_event == self.spec_raises_end(delta_ms),
            self.spec_anime_info(delta_ms, info).loop_event == self.spec_raises_loop(delta_ms),
    {
    }

    /// A tick keeps a state well formed. It never takes the loop count or
    /// the running time down, it never makes a group play that did not, and
    /// it leaves the settings of the run alone.
    pub proof fn lemma_anime(self, delta_ms: Fixed, start_event: bool)
        requires
            self.wf(),
        ensures
            self.spec_anime(delta_ms, start_event).wf(),
            self.spec_anime(delta_ms, start_event).looped_count >= self.looped_count,
            self.spec_anime(delta_ms, start_event).running_time_ms >= self.running_time_ms,
            self.spec_anime(delta_ms, start_event).is_playing ==> self.is_playing,
            self.is_playing && !self.spec_in_delay() ==> !self.spec_anime(
                delta_ms,
                start_event,
            ).spec_in_delay(),
            self.spec_anime(delta_ms, start_event).spec_same_run(self),
    {
        let after = self.spec_anime(delta_ms, start_event);
        if self.is_playing && !self.spec_in_delay() && self.spec_gate_open(delta_ms, start_event) {
            self.amount.lemma_count_monotonic(
                self.spec_guarded_once_time(),
                self.running_time_ms as int,
                after.running_time_ms as int,
            );
            if after.spec_at_start() {
                self.amount.lemma_count_in_first_pass(
                    self.spec_guarded_once_time(),
                    after.running_time_ms as int,
                );
            }
        }
    }

    /// Whether two states have the settings of the same run: all that a
    /// start sets beside the clock, and all that a start leaves alone.
    pub open spec fn spec_same_run(self, other: GroupState) -> bool {
        &&& self.id == other.id
        &&& self.loop_count == other.loop_count
        &&& self.speed == other.speed
        &&& self.fill_mode == other.fill_mode
        &&& self.from == other.from
        &&& self.to == other.to
        &&& self.delay_time_ms == other.delay_time_ms
        &&& self.loop_mode == other.loop_mode
        &&& self.frame_ms == other.frame_ms
        &&& self.max_frame == other.max_frame
        &&& self.force_max_frame == other.force_max_frame
        &&& self.once_time_ms == other.once_time_ms
        &&& self.blend_weight == other.blend_weight
        &&& self.amount == other.amount
        &&& self.amount_calc == other.amount_calc
        &&& self.amount_calc_between_frame == other.amount_calc_between_frame
        &&& self.debug == other.debug
    }

    /// A run keeps a state well formed and its settings alone; the loop
    /// count after more ticks is not below the loop count after fewer.
    pub proof fn lemma_run(self, deltas: Seq<Fixed>, fewer: nat, more: nat)
        requires
            self.wf(),
            fewer <= more,
        ensures
            self.spec_run(deltas, more).wf(),
            self.spec_run(deltas, more).spec_same_run(self),
            self.spec_run(deltas, fewer).looped_count <= self.spec_run(deltas, more).looped_count,
            self.spec_run(deltas, fewer).running_time_ms <= self.spec_run(
                deltas,
                more,
            ).running_time_ms,
            self.spec_run(deltas, more).is_playing ==> self.spec_run(deltas, fewer).is_playing,
            self.spec_run(deltas, fewer).is_playing && !self.spec_run(deltas, fewer).spec_in_delay()
                ==> !self.spec_run(deltas, more).spec_in_delay(),
        decreases more,
    {
        if more > 0 {
            if fewer < more {
                self.lemma_run(deltas, fewer, (more - 1) as nat);
            } else {
                self.lemma_run(deltas, (more - 1) as nat, (more - 1) as nat);
            }
            self.spec_run(deltas, (more - 1) as nat).lemma_anime(deltas[more - 1], false);
        }
    }

    /// A group that does not loop never raises a loop event, and ends at
    /// most once: it has raised its one end event exactly when it played at
    /// first and plays no more.
    pub proof fn lemma_single_run_events(self, deltas: Seq<Fixed>, count: nat)
        requires
            self.wf(),
            self.loop_mode is Not,
        ensures
            self.spec_run_loops(deltas, count) == 0,
            self.spec_run_ends(deltas, count) == if self.is_playing && !self.spec_run(
                deltas,
                count,
            ).is_playing {
                1nat
            } else {
                0nat
            },
        decreases count,
    {
        if count > 0 {
            self.lemma_single_run_events(deltas, (count - 1) as nat);
            self.lemma_run(deltas, 0, (count - 1) as nat);
            self.spec_run(deltas, (count - 1) as nat).lemma_anime(deltas[count - 1], false);
        }
    }

    /// A group whose delay is over and whose first tick moves its clock
    /// raises its start event at that tick and never again.
    pub proof fn lemma_single_start(self, deltas: Seq<Fixed>, count: nat)
        requires
            self.wf(),
            self.is_playing,
            !self.spec_in_delay(),
            self.spec_at_start(),
            count >= 1,
            deltas.len() >= 1,
            fixed_product(deltas[0] as int, self.speed as int) >= START_TOLERANCE_MS,
        ensures
            self.spec_run_starts(deltas, count) == 1,
            !self.spec_run(deltas, count).spec_at_start(),
        decreases count,
    {
        if count > 1 {
            self.lemma_single_start(deltas, (count - 1) as nat);
            self.lemma_run(deltas, 0, (count - 1) as nat);
            self.spec_run(deltas, (count - 1) as nat).lemma_anime(deltas[count - 1], false);
        } else {
            assert(self.spec_run(deltas, 0) == self);
            assert(self.spec_run_starts(deltas, 0) == 0);
        }
    }

    /// A tick that is let through once the running time has reached the
    /// length of a pass ends a group that does not loop.
    pub proof fn lemma_single_run_ends(self, delta_ms: Fixed)
        requires
            self.wf(),
            self.is_playing,
            self.loop_mode is Not,
            !self.spec_in_delay(),
            self.spec_gate_open(delta_ms, false),
            self.running_time_ms >= self.spec_guarded_once_time(),
        ensures
            self.spec_raises_end(delta_ms),
            !self.spec_anime(delta_ms, false).is_playing,
    {
        let once = self.spec_guarded_once_time();
        let elapsed = self.running_time_ms as int;
        assert(elapsed / once >= 1) by (nonlinear_arith)
            requires
                once > 0,
                elapsed >= once,
        ;
    }

    /// A start makes of two idle groups with the same lasting settings the
    /// same state, and of their records the same record, whatever the two
    /// went through before: the clock stands at zero, no loop is counted, no
    /// event is told of, and the record stands where the run begins.
    pub proof fn lemma_start_resets(
        self,
        other: GroupState,
        options: StartOptions,
        info: AnimationGroupRuntimeInfo,
        other_info: AnimationGroupRuntimeInfo,
    )
        requires
            self.id == other.id,
            self.max_frame == other.max_frame,
            self.force_max_frame == other.force_max_frame,
            self.blend_weight == other.blend_weight,
            self.amount_calc == other.amount_calc,
            self.debug == other.debug,
        ensures
            self.spec_start(options) == other.spec_start(options),
            self.spec_start_info(options, info) == other.spec_start_info(options, other_info),
            self.spec_start(options).is_playing,
            self.spec_start(options).running_time_ms == 0,
            self.spec_start(options).running_delay_time_ms == 0,
            self.spec_start(options).delta_ms_record == 0,
            self.spec_start(options).looped_count == 0,
            self.spec_start_info(options, info).looped_count == 0,
            self.spec_start_info(options, info).amount_in_second == self.spec_start(
                options,
            ).amount_in_second,
            self.spec_start_info(options, info).last_amount_in_second == self.spec_start(
                options,
            ).amount_in_second,
            !self.spec_start_info(options, info).start_event,
            !self.spec_start_info(options, info).end_event,
            !self.spec_start_info(options, info).loop_event,
    {
    }

    /// Two starts with the same arguments, separated by any run and a
    /// stop, begin the same run: the second start gives the state that the
    /// first gave, and so every tick after it gives what it gave after the
    /// first.
    pub proof fn lemma_restart(
        self,
        options: StartOptions,
        between: Seq<Fixed>,
        ticks: nat,
        deltas: Seq<Fixed>,
        count: nat,
    )
        requires
            self.wf(),
            !self.is_playing,
            options.frame_per_second != 0,
        ensures
            self.spec_start(options).wf(),
            (GroupState {
                is_playing: false,
                ..self.spec_start(options).spec_run(between, ticks)
            }).spec_start(options) == self.spec_start(options),
            (GroupState {
                is_playing: false,
                ..self.spec_start(options).spec_run(between, ticks)
            }).spec_start(options).spec_run(deltas, count) == self.spec_start(options).spec_run(
                deltas,
                count,
            ),
    {
        self.lemma_start_wf(options);
        self.spec_start(options).lemma_run(between, 0, ticks);
    }

    /// A start gives a well-formed state.
    pub proof fn lemma_start_wf(self, options: StartOptions)
        requires
            self.wf(),
            options.frame_per_second != 0,
        ensures
            self.spec_start(options).wf(),
    {
        let after = self.spec_start(options);
        let rate = options.frame_per_second as int;
        assert(15_258 <= 1_000_000_000int / rate <= 1_000_000_000) by (nonlinear_arith)
            requires
                0 < rate <= 0xffff,
        ;
        after.amount.lemma_count_in_first_pass(after.spec_guarded_once_time(), 0);
    }

    /// A tick of no time, for a group that is not in debug mode: nothing
    /// ends and nothing loops, the clock stands still, and the start event is
    /// raised exactly when the delay is over and the running time is still
    /// zero.
    pub proof fn lemma_tick_of_no_time(self, info: AnimationGroupRuntimeInfo)
        requires
            self.wf(),
            self.is_playing,
            !self.debug,
            !info.start_event,
            !info.end_event,
            !info.loop_event,
        ensures
            !self.spec_anime_info(0, info).end_event,
            !self.spec_anime_info(0, info).loop_event,
            self.spec_anime_info(0, info).start_event == self.spec_raises_start(),
            self.spec_anime(0, false).running_time_ms == self.running_time_ms,
            self.spec_anime(0, false).running_delay_time_ms == self.running_delay_time_ms,
            self.spec_anime(0, false).looped_count == self.looped_count,
            self.spec_anime(0, false).delta_ms_record == self.delta_ms_record,
            self.spec_anime(0, false).is_playing,
    {
        if !self.spec_in_delay() && self.spec_at_start() {
            self.amount.lemma_count_in_first_pass(
                self.spec_guarded_once_time(),
                self.running_time_ms as int,
            );
            assert(fixed_product(0, self.speed as int) == 0) by (nonlinear_arith);
        }
    }

    /// A group with speed zero stands still: a tick leaves its running
    /// time at zero, and nothing ends and nothing loops.
    pub proof fn lemma_speed_zero(self, delta_ms: Fixed)
        requires
            self.wf(),
            self.is_playing,
            self.speed == 0,
            self.running_time_ms == 0,
        ensures
            self.spec_anime(delta_ms, false).running_time_ms == 0,
            self.spec_anime(delta_ms, false).is_playing,
            self.spec_anime(delta_ms, false).speed == 0,
            !self.spec_raises_end(delta_ms),
            !self.spec_raises_loop(delta_ms),
    {
        self.amount.lemma_count_in_first_pass(self.spec_guarded_once_time(), 0);
        let gathered = saturating_sum(self.delta_ms_record as int, delta_ms as int);
        assert(fixed_product(gathered, 0) == 0) by (nonlinear_arith);
    }

    /// A group that was started with speed zero and no delay, and that
    /// shapes its progress by the identity, stays where it started through
    /// any number of ticks. A mode that begins at the start of its range
    /// keeps the start position to the digit. One that begins at the end is
    /// at most one unit of the last digit below it: the length of the range
    /// and its start are each rounded down.
    pub proof fn lemma_speed_zero_holds_position(
        self,
        options: StartOptions,
        deltas: Seq<Fixed>,
        count: nat,
    )
        requires
            self.wf(),
            !self.is_playing,
            self.amount_calc is Linear,
            options.frame_per_second != 0,
            options.speed == 0,
            options.delay_time_ms == 0,
            options.from <= options.to ==> (options.to - options.from) * 50 / 3 <= crate::base::FIXED_MAX,
            options.to <= options.from ==> (options.from - options.to) * 50 / 3 <= crate::base::FIXED_MAX,
            count >= 1,
        ensures
            self.spec_start(options).spec_run(deltas, count).is_playing,
            self.spec_start(options).spec_run(deltas, count).running_time_ms == 0,
            self.spec_start(options).spec_run(deltas, count).looped_count == 0,
            !spec_starts_at_end(options.loop_mode) ==> self.spec_start(options).spec_run(
                deltas,
                count,
            ).amount_in_second == self.spec_start(options).amount_in_second,
            spec_starts_at_end(options.loop_mode) ==> self.spec_start(options).spec_run(
                deltas,
                count,
            ).amount_in_second <= self.spec_start(options).amount_in_second
                <= self.spec_start(options).spec_run(deltas, count).amount_in_second + 1,
        decreases count,
    {
        let started = self.spec_start(options);
        self.lemma_start_wf(options);
        started.lemma_run(deltas, 0, (count - 1) as nat);
        let before = started.spec_run(deltas, (count - 1) as nat);
        if count > 1 {
            self.lemma_speed_zero_holds_position(options, deltas, (count - 1) as nat);
        } else {
            assert(before == started);
        }
        before.lemma_speed_zero(deltas[count - 1]);
        let once = before.spec_guarded_once_time();
        let span = (started.to - started.from) as int;
        assert(once > 0);
        assert(0int % once == 0 && 0int / once == 0) by (nonlinear_arith)
            requires
                once > 0,
        ;
        assert(0int * (FIXED_ONE as int) / once == 0) by (nonlinear_arith)
            requires
                once > 0,
        ;
        assert(before.spec_progress().1 == 0);
        assert(!before.spec_ends());
        assert(before.once_time_ms == span * 50 / 3);
        assert(0 * (before.once_time_ms as int) / 1_000_000_000 == 0) by (nonlinear_arith);
        assert(1_000_000 * (before.once_time_ms as int) / 1_000_000_000 == span / 60)
            by (nonlinear_arith)
            requires
                before.once_time_ms == span * 50 / 3,
                span >= 0,
        ;
    }

    /// A start over an empty frame range is taken, and gives a pass of no
    /// length, which the progress function sees as half a frame long. The
    /// group plays, and the record stands at the one frame of the range.
    /// The first tick past the delay raises the start event only; a group
    /// that does not loop ends at the first tick that is let through once
    /// the running time has reached half a frame.
    pub proof fn lemma_empty_range(
        self,
        options: StartOptions,
        info: AnimationGroupRuntimeInfo,
        delta_ms: Fixed,
    )
        requires
            self.wf(),
            !self.is_playing,
            options.frame_per_second != 0,
            options.from == options.to,
        ensures
            options.spec_result(self) == Ok::<(), EAnimationError>(()),
            self.spec_start(options).is_playing,
            self.spec_start(options).from == options.from,
            self.spec_start(options).to == options.from,
            self.spec_start_info(options, info).amount_in_second == options.from / (
            BASE_FPS as Fixed),
            self.spec_start_info(options, info).last_amount_in_second == options.from / (
            BASE_FPS as Fixed),
            self.spec_start_info(options, info).is_playing,
            self.spec_start(options).once_time_ms == 0,
            self.spec_start(options).spec_guarded_once_time() == self.spec_start(options).frame_ms
                / 2,
            self.spec_start(options).spec_guarded_once_time() > 0,
            !self.spec_start(options).spec_raises_end(delta_ms),
            !self.spec_start(options).spec_raises_loop(delta_ms),
    {
        self.lemma_start_wf(options);
        let after = self.spec_start(options);
        assert(scaled(0, 50, 3) == 0) by (nonlinear_arith);
        after.amount.lemma_count_in_first_pass(after.spec_guarded_once_time(), 0);
    }
}

/// The staging area after a group has staged the first `count` of its
/// animations, each for its target under its value type. An animation of a
/// value type that is not registered is passed over.
pub open spec fn spec_stage_first(
    staged: Seq<StagedInfos>,
    state: GroupState,
    animations: Seq<TargetAnimation>,
    count: nat,
) -> Seq<StagedInfos>
    decreases count,
{
    if count == 0 {
        staged
    } else {
        let one = animations[count - 1];
        spec_insert(
            spec_stage_first(staged, state, animations, (count - 1) as nat),
            one.animation.ty,
            one.target,
            state.spec_runtime_info(one.animation),
        )
    }
}

/// The staging area after a group has staged all of its animations.
pub open spec fn spec_stage(
    staged: Seq<StagedInfos>,
    state: GroupState,
    animations: Seq<TargetAnimation>,
) -> Seq<StagedInfos> {
    spec_stage_first(staged, state, animations, animations.len())
}

/// Staging keeps the staging area well formed, and registers no value type.
pub proof fn lemma_stage_first_wf(
    staged: Seq<StagedInfos>,
    state: GroupState,
    animations: Seq<TargetAnimation>,
    count: nat,
)
    requires
        spec_staged_wf(staged),
        count <= animations.len(),
    ensures
        spec_staged_wf(spec_stage_first(staged, state, animations, count)),
        spec_stage_first(staged, state, animations, count).len() == staged.len(),
    decreases count,
{
    if count > 0 {
        lemma_stage_first_wf(staged, state, animations, (count - 1) as nat);
        let one = animations[count - 1];
        lemma_spec_insert_wf(
            spec_stage_first(staged, state, animations, (count - 1) as nat),
            one.animation.ty,
            one.target,
            state.spec_runtime_info(one.animation),
        );
    }
}

/// What a group is made of: its clock and settings, and its animations in
/// the order in which they were added.
pub struct GroupView {
    pub state: GroupState,
    pub animations: Seq<TargetAnimation>,
}

/// Whether no two of the animations drive the same target with curves of
/// the same value type, and the value type of each is registered.
pub open spec fn spec_one_per_target(staged: Seq<StagedInfos>, animations: Seq<TargetAnimation>) -> bool {
    &&& forall|i: int| 0 <= i < animations.len() ==> (#[trigger] animations[i]).animation.ty
        < staged.len()
    &&& forall|i: int, j: int|
        0 <= i < j < animations.len() ==> !((#[trigger] animations[i]).target == (
        #[trigger] animations[j]).target && animations[i].animation.ty == animations[j].animation.ty)
}

/// A group whose animations each drive a target of their own stages exactly
/// one evaluation for each: behind what was staged for the target under the
/// value type of the curve stands the evaluation of that animation. What is
/// staged for any other target is as it was.
pub proof fn lemma_stage_one_per_target(
    staged: Seq<StagedInfos>,
    state: GroupState,
    animations: Seq<TargetAnimation>,
    count: nat,
)
    requires
        spec_staged_wf(staged),
        spec_one_per_target(staged, animations),
        count <= animations.len(),
    ensures
        spec_stage_first(staged, state, animations, count).len() == staged.len(),
        forall|k: int|
            0 <= k < count ==> spec_stage_first(
                staged,
                state,
                animations,
                count,
            )[animations[k].animation.ty as int].of((#[trigger] animations[k]).target)
                == staged[animations[k].animation.ty as int].of(animations[k].target).push(
                state.spec_runtime_info(animations[k].animation),
            ),
        forall|ty: int, target: IDAnimatableTarget|
            0 <= ty < staged.len() && (forall|k: int|
                0 <= k < count ==> !((#[trigger] animations[k]).target == target
                    && animations[k].animation.ty == ty)) ==> #[trigger] spec_stage_first(
                staged,
                state,
                animations,
                count,
            )[ty].of(target) == staged[ty].of(target),
    decreases count,
{
    if count > 0 {
        lemma_stage_one_per_target(staged, state, animations, (count - 1) as nat);
        lemma_stage_first_wf(staged, state, animations, (count - 1) as nat);
        let before = spec_stage_first(staged, state, animations, (count - 1) as nat);
        let after = spec_stage_first(staged, state, animations, count);
        let one = animations[count - 1];
        let info = state.spec_runtime_info(one.animation);
        before[one.animation.ty as int].lemma_insert_wf(one.target, info);
        assert forall|k: int| 0 <= k < count implies after[animations[k].animation.ty as int].of(
            (#[trigger] animations[k]).target,
        ) == staged[animations[k].animation.ty as int].of(animations[k].target).push(
            state.spec_runtime_info(animations[k].animation),
        ) by {
            if k < count - 1 {
                assert(!(animations[k].target == one.target && animations[k].animation.ty
                    == one.animation.ty));
            }
        }
        assert forall|ty: int, target: IDAnimatableTarget|
            0 <= ty < staged.len() && (forall|k: int|
                0 <= k < count ==> !((#[trigger] animations[k]).target == target
                    && animations[k].animation.ty == ty)) implies #[trigger] after[ty].of(target)
            == staged[ty].of(target) by {
            assert(!(animations[count - 1].target == target && animations[count - 1].animation.ty
                == ty));
            assert forall|k: int| 0 <= k < count - 1 implies !((#[trigger] animations[k]).target
                == target && animations[k].animation.ty == ty) by {}
            assert(before[ty].of(target) == staged[ty].of(target));
        }
    }
}

/// A set of animations that run on one clock.
pub struct AnimationGroup {
    clock: GroupClock,
    animations: Vec<TargetAnimation>,
}

/// A group state that is known to be well formed.
struct GroupClock {
    state: GroupState,
}

impl GroupClock {
    #[verifier::type_invariant]
    closed spec fn inv(&self) -> bool {
        self.state.wf()
    }
}

impl View for AnimationGroup {
    type V = GroupView;

    closed spec fn view(&self) -> GroupView {
        GroupView { state: self.clock.state, animations: self.animations@ }
    }
}

impl AnimationGroup {
    /// The clock and the settings of the group.
    pub open spec fn state(&self) -> GroupState {
        self@.state
    }

    /// The animations of the group, in the order in which they were added.
    pub open spec fn spec_animations(&self) -> Seq<TargetAnimation> {
        self@.animations
    }

    /// What every group obeys.
    pub open spec fn wf(&self) -> bool {
        self.state().wf()
    }

    pub fn new() -> (r: AnimationGroup)
        ensures
            r.state() == GroupState::spec_new(),
            r.spec_animations() == Seq::<TargetAnimation>::empty(),
            r.wf(),
    {
        AnimationGroup {
            clock: GroupClock {
                state: GroupState {
                    id: AnimationGroupID::null(),
                    loop_count: Some(1),
                    speed: FIXED_ONE,
                    fill_mode: EFillMode::NONE,
                    from: 0,
                    to: FIXED_ONE,
                    delay_time_ms: 0,
                    running_delay_time_ms: 0,
                    running_time_ms: 0,
                    looped_count: 0,
                    loop_mode: ELoopMode::Not,
                    delta_ms_record: 0,
                    frame_ms: 16_600_000,
                    max_frame: 0,
                    force_max_frame: None,
                    once_time_ms: FIXED_ONE,
                    is_playing: false,
                    blend_weight: FIXED_ONE,
                    amount_in_second: 0,
                    amount: get_amount_calc(ELoopMode::Not),
                    amount_calc: AnimationAmountCalc::Linear,
                    amount_calc_between_frame: AnimationAmountCalc::Linear,
                    debug: false,
                },
            },
            animations: Vec::new(),
        }
    }

    /// A copy of the clock and the settings.
    pub fn get_state(&self) -> (r: GroupState)
        ensures
            r == self.state(),
            r.wf(),
    {
        proof {
            use_type_invariant(&self.clock);
        }
        self.clock.state
    }

    /// Sets the shaper of the whole run.
    pub fn amount_calc(&mut self, amount_calc: AnimationAmountCalc)
        ensures
            final(self).state() == (GroupState { amount_calc, ..old(self).state() }),
            final(self).spec_animations() == old(self).spec_animations(),
    {
        proof {
            use_type_invariant(&self.clock);
        }
        self.clock.state.amount_calc = amount_calc;
    }

    /// The total number of frames of the group, on the reference clock.
    pub fn max_frame(&self) -> (r: Fixed)
        ensures
            r == self.state().spec_max_frame(),
    {
        match self.clock.state.force_max_frame {
            Some(frames) => frames,
            None => self.clock.state.max_frame,
        }
    }

    /// Forces the total number of frames to `frames` frames of a curve
    /// designed at `design_frame_per_second`; without `frames`, or with a
    /// frame rate of zero, the longest curve decides again. Takes effect at
    /// the next start.
    pub fn force_total_frame(
        &mut self,
        design_frame_per_second: FramePerSecond,
        frames: Option<Fixed>,
    )
        ensures
            final(self).state() == (GroupState {
                force_max_frame: match frames {
                    Some(count) => if design_frame_per_second != 0 {
                        Some(
                            scaled(
                                count as int,
                                BASE_FPS as int,
                                design_frame_per_second as int,
                            ) as Fixed,
                        )
                    } else {
                        None
                    },
                    None => None,
                },
                ..old(self).state()
            }),
            final(self).spec_animations() == old(self).spec_animations(),
    {
        proof {
            use_type_invariant(&self.clock);
        }
        if design_frame_per_second == 0 {
            self.clock.state.force_max_frame = None;
            return ;
        }
        match frames {
            Some(count) => {
                self.clock.state.force_max_frame = Some(
                    mul_div(count, BASE_FPS as u64, design_frame_per_second as u64),
                );
            },
            None => {
                self.clock.state.force_max_frame = None;
            },
        }
    }

    /// Stamps the key of the group into it.
    pub fn set_id(&mut self, id: AnimationGroupID)
        ensures
            final(self).state() == (GroupState { id, ..old(self).state() }),
            final(self).spec_animations() == old(self).spec_animations(),
    {
        proof {
            use_type_invariant(&self.clock);
        }
        self.clock.state.id = id;
    }

    /// Sets the blend weight that the group stages with its evaluations.
    pub fn set_blend_weight(&mut self, weight: Fixed)
        ensures
            final(self).state() == (GroupState { blend_weight: weight, ..old(self).state() }),
            final(self).spec_animations() == old(self).spec_animations(),
    {
        proof {
            use_type_invariant(&self.clock);
        }
        self.clock.state.blend_weight = weight;
    }

    /// Lets every tick through the frame gate, or stops doing so.
    pub fn set_debug(&mut self, flag: bool)
        ensures
            final(self).state() == (GroupState { debug: flag, ..old(self).state() }),
            final(self).spec_animations() == old(self).spec_animations(),
    {
        proof {
            use_type_invariant(&self.clock);
        }
        self.clock.state.debug = flag;
    }

    /// Advances the group by `delta_ms`. A group that is playing counts down
    /// its delay, then lets a tick through once three quarters of a frame
    /// have gone by: it samples the progress at the running time, raises the
    /// start, loop and end events, stages one evaluation for each of its
    /// animations, and only then advances the running time.
    pub fn anime(
        &mut self,
        runtime_infos: &mut RuntimeInfoMap,
        delta_ms: Fixed,
        group_info: &mut AnimationGroupRuntimeInfo,
    )
        requires
            old(runtime_infos).wf(),
        ensures
            old(self).wf(),
            final(self).wf(),
            final(runtime_infos).wf(),
            final(self).spec_animations() == old(self).spec_animations(),
            final(self).state() == old(self).state().spec_anime(delta_ms, old(group_info).start_event),
            *final(group_info) == old(self).state().spec_anime_info(delta_ms, *old(group_info)),
            final(runtime_infos)@ == if old(self).state().spec_stages(
                delta_ms,
                old(group_info).start_event,
            ) {
                spec_stage(old(runtime_infos)@, final(self).state(), old(self).spec_animations())
            } else {
                old(runtime_infos)@
            },
            !old(self).state().is_playing ==> {
                &&& final(self).state() == old(self).state()
                &&& final(runtime_infos)@ == old(runtime_infos)@
                &&& final(group_info).start_event == old(group_info).start_event
                &&& final(group_info).end_event == old(group_info).end_event
                &&& final(group_info).loop_event == old(group_info).loop_event
            },
            final(self).state().looped_count >= old(self).state().looped_count,
    {
        proof {
            use_type_invariant(&self.clock);
        }
        group_info.last_amount_in_second = group_info.amount_in_second;
        let mut state: GroupState = self.clock.state;
        if !state.is_playing {
            return ;
        }
        let gate: Fixed = state.frame_ms * 3 / 4;
        if state.delay_time_ms > state.running_delay_time_ms && state.delay_time_ms
            - state.running_delay_time_ms > gate {
            state.running_delay_time_ms = fixed_add(state.running_delay_time_ms, delta_ms);
            if state.fill_mode.has_backwards() {
                let hold: Fixed = match state.loop_mode {
                    ELoopMode::Not => 0,
                    ELoopMode::Positive(_) => 0,
                    ELoopMode::Opposite(_) => FIXED_ONE,
                    ELoopMode::PositivePly(_) => 0,
                    ELoopMode::OppositePly(_) => FIXED_ONE,
                };
                let amount_in_second: Fixed = state.seconds_at(hold);
                state.amount_in_second = amount_in_second;
                group_info.amount_in_second = amount_in_second;
                self.clock.state = state;
                self.update_to_infos(runtime_infos);
            } else {
                self.clock.state = state;
            }
            return ;
        }
        if state.running_time_ms < START_TOLERANCE_MS {
            group_info.start_event = true;
        }
        let once_time: Fixed = state.guarded_once_time();
        let gathered: Fixed = fixed_add(state.delta_ms_record, delta_ms);
        state.delta_ms_record = gathered;
        if group_info.start_event || gathered >= gate || state.debug {
            let (progress, loop_count): (Fixed, u32) = state.amount.call(
                once_time,
                state.running_time_ms,
            );
            let mut amount: Fixed = progress;
            if state.looped_count != loop_count {
                let ends: bool = match state.loop_count {
                    Some(limit) => limit <= loop_count,
                    None => false,
                };
                if ends {
                    group_info.end_event = true;
                    group_info.is_playing = false;
                    state.is_playing = false;
                    if state.fill_mode.has_forwards() {
                        amount =
                        match state.loop_mode {
                            ELoopMode::Not => FIXED_ONE,
                            ELoopMode::Positive(_) => FIXED_ONE,
                            ELoopMode::Opposite(_) => 0,
                            ELoopMode::PositivePly(_) => 0,
                            ELoopMode::OppositePly(_) => FIXED_ONE,
                        };
                    }
                } else {
                    group_info.loop_event = true;
                }
            }
            let anime_amount: Fixed = state.amount_calc.calc(amount);
            let amount_in_second: Fixed = state.seconds_at(anime_amount);
            state.looped_count = loop_count;
            state.amount_in_second = amount_in_second;
            group_info.amount_in_second = amount_in_second;
            group_info.looped_count = loop_count;
            let advance: Fixed = fixed_mul(gathered, state.speed);
            let running_time_ms: Fixed = fixed_add(state.running_time_ms, advance);
            proof {
                state.amount.lemma_count_monotonic(
                    once_time as int,
                    state.running_time_ms as int,
                    running_time_ms as int,
                );
                if running_time_ms < START_TOLERANCE_MS {
                    state.amount.lemma_count_in_first_pass(
                        once_time as int,
                        running_time_ms as int,
                    );
                }
            }
            state.running_time_ms = running_time_ms;
            state.delta_ms_record = 0;
            self.clock.state = state;
            self.update_to_infos(runtime_infos);
        } else {
            self.clock.state = state;
        }
    }

    /// Adds an animation of a target, and stretches the group to the length
    /// of its curve.
    pub fn add_target_animation(&mut self, target_animation: TargetAnimation) -> (r: Result<
        (),
        EAnimationError,
    >)
        ensures
            r == Ok::<(), EAnimationError>(()),
            final(self).spec_animations() == old(self).spec_animations().push(target_animation),
            final(self).state() == (GroupState {
                max_frame: if old(self).state().max_frame
                    >= target_animation.animation.spec_max_frame_for_running_speed(BASE_FPS as int) {
                    old(self).state().max_frame
                } else {
                    target_animation.animation.spec_max_frame_for_running_speed(
                        BASE_FPS as int,
                    ) as Fixed
                },
                ..old(self).state()
            }),
    {
        proof {
            use_type_invariant(&self.clock);
        }
        let frames: Fixed = target_animation.animation.get_max_frame_for_running_speed(BASE_FPS);
        if frames > self.clock.state.max_frame {
            self.clock.state.max_frame = frames;
        }
        self.animations.push(target_animation);
        Ok(())
    }

    /// Starts a run over the whole length of the group that takes `seconds`
    /// for each second of curve: the speed is `1 / seconds`. With zero
    /// seconds the speed is the largest there is.
    pub fn start_complete(
        &mut self,
        seconds: Fixed,
        loop_mode: ELoopMode,
        frame_per_second: FramePerSecond,
        amount_calc_between_frame: AnimationAmountCalc,
        group_info: &mut AnimationGroupRuntimeInfo,
        delay_time_ms: TimeMS,
        fillmode: EFillMode,
    ) -> (r: Result<(), EAnimationError>)
        ensures
            old(self).wf(),
            final(self).wf(),
            final(self).spec_animations() == old(self).spec_animations(),
            old(self).spec_start_complete_options(
                seconds,
                loop_mode,
                frame_per_second,
                amount_calc_between_frame,
                delay_time_ms,
                fillmode,
            ).spec_met(
                old(self).state(),
                *old(group_info),
                r,
                final(self).state(),
                *final(group_info),
            ),
    {
        let speed: Fixed = fixed_div(FIXED_ONE, seconds);
        let to: Fixed = self.max_frame();
        self.start(
            speed,
            loop_mode,
            0,
            to,
            frame_per_second,
            group_info,
            amount_calc_between_frame,
            delay_time_ms,
            fillmode,
        )
    }

    /// The arguments with which `start_complete` starts the run.
    pub open spec fn spec_start_complete_options(
        &self,
        seconds: Fixed,
        loop_mode: ELoopMode,
        frame_per_second: FramePerSecond,
        amount_calc_between_frame: AnimationAmountCalc,
        delay_time_ms: TimeMS,
        fill_mode: EFillMode,
    ) -> StartOptions {
        StartOptions {
            speed: fixed_quotient(FIXED_ONE as int, seconds as int) as Fixed,
            loop_mode,
            from: 0,
            to: self.state().spec_max_frame(),
            frame_per_second,
            amount_calc_between_frame,
            delay_time_ms,
            fill_mode,
        }
    }

    /// The arguments with which `start_with_progress` starts the run.
    pub open spec fn spec_start_with_progress_options(
        &self,
        speed: Fixed,
        loop_mode: ELoopMode,
        from: Fixed,
        to: Fixed,
        frame_per_second: FramePerSecond,
        amount_calc_between_frame: AnimationAmountCalc,
        delay_time_ms: TimeMS,
        fill_mode: EFillMode,
    ) -> StartOptions {
        StartOptions {
            speed,
            loop_mode,
            from: fixed_product(from as int, self.state().spec_max_frame() as int) as Fixed,
            to: fixed_product(to as int, self.state().spec_max_frame() as int) as Fixed,
            frame_per_second,
            amount_calc_between_frame,
            delay_time_ms,
            fill_mode,
        }
    }

    /// Starts a run between two positions given as fractions, from 0 to 1,
    /// of the whole length of the group.
    pub fn start_with_progress(
        &mut self,
        speed: Fixed,
        loop_mode: ELoopMode,
        from: Fixed,
        to: Fixed,
        frame_per_second: FramePerSecond,
        group_info: &mut AnimationGroupRuntimeInfo,
        amount_calc_between_frame: AnimationAmountCalc,
        delay_time_ms: TimeMS,
        fillmode: EFillMode,
    ) -> (r: Result<(), EAnimationError>)
        ensures
            old(self).wf(),
            final(self).wf(),
            final(self).spec_animations() == old(self).spec_animations(),
            old(self).spec_start_with_progress_options(
                speed,
                loop_mode,
                from,
                to,
                frame_per_second,
                amount_calc_between_frame,
                delay_time_ms,
                fillmode,
            ).spec_met(
                old(self).state(),
                *old(group_info),
                r,
                final(self).state(),
                *final(group_info),
            ),
    {
        let total: Fixed = self.max_frame();
        self.start(
            speed,
            loop_mode,
            fixed_mul(from, total),
            fixed_mul(to, total),
            frame_per_second,
            group_info,
            amount_calc_between_frame,
            delay_time_ms,
            fillmode,
        )
    }

    /// Starts a run between two frames of the reference clock; the earlier of
    /// the two is where a pass begins. A group that is playing refuses, and so
    /// does a frame rate of zero; a refused start changes nothing.
    pub fn start(
        &mut self,
        speed: Fixed,
        loop_mode: ELoopMode,
        from: Fixed,
        to: Fixed,
        frame_per_second: FramePerSecond,
        group_info: &mut AnimationGroupRuntimeInfo,
        amount_calc_between_frame: AnimationAmountCalc,
        delay_time_ms: TimeMS,
        fillmode: EFillMode,
    ) -> (r: Result<(), EAnimationError>)
        ensures
            old(self).wf(),
            final(self).wf(),
            final(self).spec_animations() == old(self).spec_animations(),
            (StartOptions {
                speed,
                loop_mode,
                from,
                to,
                frame_per_second,
                amount_calc_between_frame,
                delay_time_ms,
                fill_mode: fillmode,
            }).spec_met(
                old(self).state(),
                *old(group_info),
                r,
                final(self).state(),
                *final(group_info),
            ),
    {
        proof {
            use_type_invariant(&self.clock);
        }
        let mut state: GroupState = self.clock.state;
        if state.is_playing {
            return Err(EAnimationError::AnimationGroupHasStarted);
        }
        if frame_per_second == 0 {
            return Err(EAnimationError::AnimationFramePerSecondCannotZero);
        }
        let (from, to): (Fixed, Fixed) = if from <= to {
            (from, to)
        } else {
            (to, from)
        };
        state.is_playing = true;
        state.speed = speed;
        state.running_time_ms = 0;
        state.looped_count = 0;
        state.delta_ms_record = 0;
        state.delay_time_ms = delay_time_ms;
        state.running_delay_time_ms = 0;
        state.fill_mode = fillmode;
        state.frame_ms = 1000 * FIXED_ONE / (frame_per_second as u64);
        state.loop_mode = loop_mode;
        state.amount = get_amount_calc(loop_mode);
        state.from = from;
        state.to = to;
        state.once_time_ms = mul_div(to - from, 50, 3);
        state.amount_calc_between_frame = amount_calc_between_frame;
        let at_start: Fixed = from / (BASE_FPS as u64);
        let at_end: Fixed = to / (BASE_FPS as u64);
        match loop_mode {
            ELoopMode::Opposite(limit) => {
                state.loop_count = widen(limit);
                state.amount_in_second = at_end;
            },
            ELoopMode::OppositePly(limit) => {
                state.loop_count = widen(limit);
                state.amount_in_second = at_end;
            },
            ELoopMode::Positive(limit) => {
                state.loop_count = widen(limit);
                state.amount_in_second = at_start;
            },
            ELoopMode::PositivePly(limit) => {
                state.loop_count = widen(limit);
                state.amount_in_second = at_start;
            },
            ELoopMode::Not => {
                state.loop_count = Some(1);
                state.amount_in_second = at_start;
            },
        }
        group_info.amount_in_second = state.amount_in_second;
        group_info.last_amount_in_second = state.amount_in_second;
        group_info.is_playing = true;
        group_info.start_event = false;
        group_info.loop_event = false;
        group_info.end_event = false;
        group_info.looped_count = 0;
        proof {
            assert(1_000_000_000int / (frame_per_second as int) >= 15_258) by (nonlinear_arith)
                requires
                    0 < frame_per_second <= 0xffff,
            ;
            assert(1_000_000_000int / (frame_per_second as int) <= 1_000_000_000) by (nonlinear_arith)
                requires
                    0 < frame_per_second <= 0xffff,
            ;
            state.amount.lemma_count_in_first_pass(state.spec_guarded_once_time(), 0);
        }
        self.clock.state = state;
        Ok(())
    }

    /// Stops the run. The sampling position stays where it is.
    pub fn stop(&mut self)
        ensures
            final(self).state() == (GroupState { is_playing: false, ..old(self).state() }),
            final(self).spec_animations() == old(self).spec_animations(),
    {
        proof {
            use_type_invariant(&self.clock);
        }
        self.clock.state.is_playing = false;
    }

    fn update_to_infos(&self, runtime_infos: &mut RuntimeInfoMap)
        requires
            old(runtime_infos).wf(),
        ensures
            final(runtime_infos).wf(),
            final(runtime_infos)@ == spec_stage(
                old(runtime_infos)@,
                self.state(),
                self.spec_animations(),
            ),
    {
        let mut i: usize = 0;
        while i < self.animations.len()
            invariant
                i <= self.animations@.len(),
                runtime_infos.wf(),
                runtime_infos@ == spec_stage_first(
                    old(runtime_infos)@,
                    self.clock.state,
                    self.animations@,
                    i as nat,
                ),
            decreases self.animations@.len() - i,
        {
            let anime: TargetAnimation = self.animations[i];
            let temp = RuntimeInfo {
                amount_in_second: self.clock.state.amount_in_second,
                attr: anime.animation.attr(),
                curve_id: anime.animation.curve_id(),
                group_weight: self.clock.state.blend_weight,
                amount_calc: self.clock.state.amount_calc_between_frame,
            };
            let _ = runtime_infos.insert(anime.animation.ty(), anime.target, temp);
            i = i + 1;
        }
    }

    /// Takes the animations out of the group.
    pub fn clear(&mut self) -> (r: Vec<AnimationInfo>)
        ensures
            final(self).state() == old(self).state(),
            final(self).spec_animations() == Seq::<TargetAnimation>::empty(),
            r@ == old(self).spec_animations().map_values(|one: TargetAnimation| one.animation),
    {
        let mut result: Vec<AnimationInfo> = Vec::new();
        let mut i: usize = 0;
        while i < self.animations.len()
            invariant
                i <= self.animations@.len(),
                self.animations@ == old(self).animations@,
                self.clock.state == old(self).state(),
                result@ == self.animations@.take(i as int).map_values(
                    |one: TargetAnimation| one.animation,
                ),
            decreases self.animations@.len() - i,
        {
            result.push(self.animations[i].animation);
            assert(self.animations@.take(i + 1).map_values(|one: TargetAnimation| one.animation)
                =~= self.animations@.take(i as int).map_values(
                |one: TargetAnimation| one.animation,
            ).push(self.animations@[i as int].animation));
            i = i + 1;
        }
        assert(self.animations@.take(i as int) =~= self.animations@);
        self.animations.clear();
        result
    }

    pub fn animations(&self) -> (r: &Vec<TargetAnimation>)
        ensures
            r@ == self.spec_animations(),
    {
        &self.animations
    }
}

impl StartOptions {
    /// What a start with these arguments returns: an error if and only if
    /// the group is playing or the frame rate is zero.
    pub open spec fn spec_result(self, before: GroupState) -> Result<(), EAnimationError> {
        match before.spec_start_error(self) {
            Some(error) => Err(error),
            None => Ok(()),
        }
    }

    /// What a start with these arguments makes of the state of a group and
    /// of its record: a start that is refused changes nothing; else the run
    /// is set up from its beginning.
    pub open spec fn spec_apply(
        self,
        before: GroupState,
        info: AnimationGroupRuntimeInfo,
    ) -> (GroupState, AnimationGroupRuntimeInfo) {
        if before.spec_start_error(self) is Some {
            (before, info)
        } else {
            (before.spec_start(self), before.spec_start_info(self, info))
        }
    }

    /// Whether a call did what a start with these arguments does.
    pub open spec fn spec_met(
        self,
        before: GroupState,
        info_before: AnimationGroupRuntimeInfo,
        result: Result<(), EAnimationError>,
        after: GroupState,
        info_after: AnimationGroupRuntimeInfo,
    ) -> bool {
        result == self.spec_result(before) && (after, info_after) == self.spec_apply(
            before,
            info_before,
        )
    }
}

fn widen(limit: Option<u16>) -> (r: Option<u32>)
    ensures
        r == match limit {
            Some(n) => Some(n as u32),
            None => None::<u32>,
        },
{
    match limit {
        Some(n) => Some(n as u32),
        None => None,
    }
}

/// The attributes of a group that can themselves be animated.
#[derive(Debug, Clone, Copy, PartialEq, Eq, Structural)]
pub enum AnimationGroupAnimatableAttrSet {
    BlendWeight,
}

impl AnimationGroupAnimatableAttrSet {
    /// The number of the attribute.
    pub fn attr(self) -> (r: IDAnimatableAttr)
        ensures
            r == 0,
    {
        match self {
            AnimationGroupAnimatableAttrSet::BlendWeight => 0,
        }
    }
}

impl TAnimatableTargetModifier<Fixed> for AnimationGroup {
    /// Attribute 0 is the blend weight; any other attribute is ignored.
    fn anime_modify(&mut self, attr: IDAnimatableAttr, value: Fixed) -> (r: Result<
        (),
        EAnimationError,
    >)
        ensures
            r == Ok::<(), EAnimationError>(()),
            final(self).spec_animations() == old(self).spec_animations(),
            final(self).state() == if attr == 0 {
                GroupState { blend_weight: value, ..old(self).state() }
            } else {
                old(self).state()
            },
    {
        proof {
            use_type_invariant(&self.clock);
        }
        if attr == AnimationGroupAnimatableAttrSet::BlendWeight.attr() {
            self.clock.state.blend_weight = value;
        }
        Ok(())
    }
}

} // verus!
