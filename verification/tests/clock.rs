use pi_animation::amount::{AnimationAmountCalc, EStepMode};
use pi_animation::animation::AnimationInfo;
use pi_animation::animation_group::{
    AnimationGroup, AnimationGroupID, AnimationGroupRuntimeInfo, BASE_FPS,
};
use pi_animation::base::{
    fixed_add, fixed_div, fixed_mul, mul_div, EFillMode, Fixed, FIXED_MAX, FIXED_ONE,
};
use pi_animation::error::EAnimationError;
use pi_animation::frame_curve_manager::FrameCurveInfo;
use pi_animation::loop_mode::{get_amount_calc, AmountCalc, ELoopMode};
use pi_animation::runtime_info::RuntimeInfoMap;
use pi_animation::target_animation::TargetAnimation;
use pi_animation::target_modifier::TAnimatableTargetModifier;

fn ms(value: u64) -> Fixed {
    value * FIXED_ONE
}

fn frames(value: u64) -> Fixed {
    value * FIXED_ONE
}

fn animation(ty: usize, slot: usize, max_frame: u16, design_fps: u16) -> AnimationInfo {
    AnimationInfo {
        attr: 7,
        ty,
        curve_info: FrameCurveInfo::new(max_frame, 0, design_fps),
        curve_id: slot,
    }
}

fn group_with(target: usize, max_frame: u16) -> AnimationGroup {
    let mut group = AnimationGroup::new();
    group
        .add_target_animation(TargetAnimation { target, animation: animation(0, 0, max_frame, 60) })
        .unwrap();
    group
}

fn staging() -> RuntimeInfoMap {
    let mut map = RuntimeInfoMap::default();
    map.add_type(0);
    map
}

fn start(
    group: &mut AnimationGroup,
    info: &mut AnimationGroupRuntimeInfo,
    speed: Fixed,
    mode: ELoopMode,
    from: u64,
    to: u64,
    fill: EFillMode,
) {
    group
        .start(
            speed,
            mode,
            frames(from),
            frames(to),
            60,
            info,
            AnimationAmountCalc::default(),
            0,
            fill,
        )
        .unwrap();
}

fn tick(
    group: &mut AnimationGroup,
    info: &mut AnimationGroupRuntimeInfo,
    delta: u64,
) -> (bool, bool, bool) {
    info.start_event = false;
    info.end_event = false;
    info.loop_event = false;
    let mut map = staging();
    group.anime(&mut map, ms(delta), info);
    (info.start_event, info.loop_event, info.end_event)
}

#[test]
fn mul_div_rounds_down_and_saturates() {
    assert_eq!(mul_div(7, 3, 2), 10);
    assert_eq!(mul_div(0, 5, 0), 0);
    assert_eq!(mul_div(1, 5, 0), FIXED_MAX);
    assert_eq!(mul_div(FIXED_MAX, FIXED_MAX, 1), FIXED_MAX);
    assert_eq!(mul_div(FIXED_MAX, FIXED_MAX, FIXED_MAX), FIXED_MAX);
    assert_eq!(mul_div(FIXED_MAX, 2, 4), FIXED_MAX / 2);
}

#[test]
fn fixed_arithmetic() {
    assert_eq!(fixed_mul(1_500_000, 2_000_000), 3_000_000);
    assert_eq!(fixed_mul(1, 1), 0);
    assert_eq!(fixed_div(FIXED_ONE, 4_000_000), 250_000);
    assert_eq!(fixed_div(FIXED_ONE, 3_000_000), 333_333);
    assert_eq!(fixed_div(FIXED_ONE, 0), FIXED_MAX);
    assert_eq!(fixed_div(0, 0), 0);
    assert_eq!(fixed_add(1, 2), 3);
    assert_eq!(fixed_add(FIXED_MAX, 1), FIXED_MAX);
    assert_eq!(fixed_add(FIXED_MAX - 1, 1), FIXED_MAX);
}

#[test]
fn fill_mode_flags() {
    assert_eq!(EFillMode::NONE.bits(), 0);
    assert_eq!(EFillMode::FORWARDS.bits(), 1);
    assert_eq!(EFillMode::BACKWARDS.bits(), 2);
    assert_eq!(EFillMode::BOTH.bits(), 3);
    assert!(!EFillMode::NONE.has_forwards() && !EFillMode::NONE.has_backwards());
    assert!(EFillMode::FORWARDS.has_forwards() && !EFillMode::FORWARDS.has_backwards());
    assert!(!EFillMode::BACKWARDS.has_forwards() && EFillMode::BACKWARDS.has_backwards());
    assert!(EFillMode::BOTH.has_forwards() && EFillMode::BOTH.has_backwards());
}

#[test]
fn loop_mode_selects_its_progress_function() {
    assert_eq!(ELoopMode::default(), ELoopMode::Not);
    assert_eq!(get_amount_calc(ELoopMode::Not), AmountCalc::Not);
    assert_eq!(get_amount_calc(ELoopMode::Positive(Some(3))), AmountCalc::Positive);
    assert_eq!(get_amount_calc(ELoopMode::Opposite(None)), AmountCalc::Opposite);
    assert_eq!(get_amount_calc(ELoopMode::PositivePly(None)), AmountCalc::PositivePly);
    assert_eq!(get_amount_calc(ELoopMode::OppositePly(Some(1))), AmountCalc::OppositePly);
}

#[test]
fn progress_of_each_loop_mode() {
    let once = 400;
    // 1.75 passes in: one whole pass and three quarters of the next.
    assert_eq!(AmountCalc::Not.call(once, 100), (250_000, 0));
    assert_eq!(AmountCalc::Not.call(once, 400), (FIXED_ONE, 1));
    assert_eq!(AmountCalc::Not.call(once, 700), (FIXED_ONE, 1));
    assert_eq!(AmountCalc::Positive.call(once, 700), (750_000, 1));
    assert_eq!(AmountCalc::Opposite.call(once, 700), (250_000, 1));
    assert_eq!(AmountCalc::Opposite.call(once, 0), (FIXED_ONE, 0));
    assert_eq!(AmountCalc::PositivePly.call(once, 100), (250_000, 0));
    assert_eq!(AmountCalc::PositivePly.call(once, 700), (250_000, 0));
    assert_eq!(AmountCalc::PositivePly.call(once, 900), (250_000, 1));
    assert_eq!(AmountCalc::OppositePly.call(once, 100), (750_000, 0));
    assert_eq!(AmountCalc::OppositePly.call(once, 700), (750_000, 0));
    assert_eq!(AmountCalc::OppositePly.call(once, 1300), (250_000, 1));
    assert_eq!(AmountCalc::Positive.call(3, 2), (666_666, 0));
}

#[test]
fn loop_count_is_cut_off() {
    assert_eq!(AmountCalc::Positive.call(1, u64::MAX), (0, u32::MAX));
    assert_eq!(AmountCalc::PositivePly.call(1, 0x2_0000_0001), (FIXED_ONE, u32::MAX));
    assert_eq!(AmountCalc::PositivePly.call(1, 0x1_ffff_fffc), (0, 0xffff_fffe));
}

#[test]
fn ply_repeats_every_two_passes() {
    let once = 991_666_667;
    for elapsed in [0u64, 1, 500_000_000, 991_666_666, 991_666_667, 1_500_000_000] {
        let now = AmountCalc::PositivePly.call(once, elapsed);
        let later = AmountCalc::PositivePly.call(once, elapsed + 2 * once);
        assert_eq!(now.0, later.0);
        assert_eq!(now.1 + 1, later.1);
        let now = AmountCalc::OppositePly.call(once, elapsed);
        let later = AmountCalc::OppositePly.call(once, elapsed + 2 * once);
        assert_eq!(now.0, later.0);
    }
}

#[test]
fn linear_shaper_is_the_identity_held_at_one() {
    let calc = AnimationAmountCalc::default();
    assert_eq!(calc, AnimationAmountCalc::Linear);
    assert_eq!(calc.calc(0), 0);
    assert_eq!(calc.calc(123_456), 123_456);
    assert_eq!(calc.calc(FIXED_ONE), FIXED_ONE);
    assert_eq!(calc.calc(FIXED_ONE + 5), FIXED_ONE);
}

#[test]
fn step_shapers() {
    let at = |mode: EStepMode, steps: u16, amount: Fixed| {
        AnimationAmountCalc::from_steps(steps, mode).calc(amount)
    };
    // Four steps, 30% in: on the second step.
    assert_eq!(at(EStepMode::JumpStart, 4, 300_000), 500_000);
    assert_eq!(at(EStepMode::JumpEnd, 4, 300_000), 250_000);
    assert_eq!(at(EStepMode::JumpNone, 4, 300_000), 333_333);
    assert_eq!(at(EStepMode::JumpBoth, 4, 300_000), 400_000);
    // At the start.
    assert_eq!(at(EStepMode::JumpStart, 4, 0), 250_000);
    assert_eq!(at(EStepMode::JumpEnd, 4, 0), 0);
    assert_eq!(at(EStepMode::JumpNone, 4, 0), 0);
    assert_eq!(at(EStepMode::JumpBoth, 4, 0), 200_000);
    // On the last step, and at the end.
    assert_eq!(at(EStepMode::JumpStart, 4, 999_999), FIXED_ONE);
    assert_eq!(at(EStepMode::JumpEnd, 4, 999_999), 750_000);
    assert_eq!(at(EStepMode::JumpNone, 4, 999_999), FIXED_ONE);
    assert_eq!(at(EStepMode::JumpBoth, 4, 999_999), 800_000);
    for mode in [EStepMode::JumpStart, EStepMode::JumpEnd, EStepMode::JumpNone, EStepMode::JumpBoth]
    {
        assert_eq!(at(mode, 4, FIXED_ONE), FIXED_ONE);
        assert_eq!(at(mode, 0, FIXED_ONE), FIXED_ONE);
        assert!(at(mode, 0, 500_000) <= FIXED_ONE);
        assert!(at(mode, 1, 500_000) <= FIXED_ONE);
    }
    assert_eq!(at(EStepMode::JumpNone, 1, 500_000), 0);
    assert_eq!(at(EStepMode::JumpEnd, 0, 500_000), 0);
    assert_eq!(at(EStepMode::JumpNone, 5, 201_680), 250_000);
}

#[test]
fn curve_length_on_another_clock() {
    assert_eq!(animation(0, 0, 30, 30).get_max_frame_for_running_speed(60), frames(60));
    assert_eq!(animation(0, 0, 60, 60).get_max_frame_for_running_speed(60), frames(60));
    assert_eq!(animation(0, 0, 10, 3).get_max_frame_for_running_speed(1), 3_333_333);
    assert_eq!(animation(0, 0, 10, 0).get_max_frame_for_running_speed(60), FIXED_MAX);
    assert_eq!(animation(0, 0, 0, 0).get_max_frame_for_running_speed(60), 0);
    let info = FrameCurveInfo::new(30, 5, 30);
    assert_eq!(info.max_frame(), 30);
    assert_eq!(info.min_frame(), 5);
    assert_eq!(info.design_frame_per_second(), 30);
    assert_eq!(info.get_max_frame_for_running_speed(60), 60);
    assert_eq!(info.get_max_frame_for_running_speed(20), 20);
    assert_eq!(FrameCurveInfo::new(10, 0, 3).get_max_frame_for_running_speed(1), 3);
    assert_eq!(FrameCurveInfo::new(60000, 0, 1).get_max_frame_for_running_speed(60000), 65535);
    assert_eq!(FrameCurveInfo::new(10, 0, 0).get_max_frame_for_running_speed(1), 65535);
    assert_eq!(FrameCurveInfo::new(0, 0, 0).get_max_frame_for_running_speed(1), 0);
    let one = animation(4, 9, 30, 15);
    assert_eq!(one.max_frame(), 30);
    assert_eq!(one.min_frame(), 0);
    assert_eq!(one.design_frame_per_second(), 15);
    assert_eq!(one.ty(), 4);
    assert_eq!(one.attr(), 7);
    assert_eq!(one.curve_id(), 9);
}

#[test]
fn new_group_is_idle() {
    let group = AnimationGroup::new();
    let state = group.get_state();
    assert!(!state.is_playing);
    assert!(state.id.is_null());
    assert_eq!(state.id, AnimationGroupID::null());
    assert_eq!(state.loop_count, Some(1));
    assert_eq!(state.speed, FIXED_ONE);
    assert_eq!(state.blend_weight, FIXED_ONE);
    assert_eq!(state.frame_ms, 16_600_000);
    assert_eq!(state.once_time_ms, FIXED_ONE);
    assert_eq!(state.loop_mode, ELoopMode::Not);
    assert_eq!(state.fill_mode, EFillMode::NONE);
    assert_eq!(state.to, FIXED_ONE);
    assert_eq!(group.max_frame(), 0);
    assert!(group.animations().is_empty());
    assert_eq!(BASE_FPS, 60);
}

/// A group that was never started takes no part in a tick.
#[test]
fn idle_group_ignores_a_tick() {
    let mut group = group_with(1, 60);
    let before = group.get_state();
    let mut map = staging();
    let mut info = AnimationGroupRuntimeInfo::idle();
    info.amount_in_second = 5;
    group.anime(&mut map, ms(100), &mut info);
    assert_eq!(group.get_state(), before);
    assert!(map.get_type_list(0).unwrap().targets().is_empty());
    assert_eq!(
        info,
        AnimationGroupRuntimeInfo {
            last_amount_in_second: 5,
            amount_in_second: 5,
            ..AnimationGroupRuntimeInfo::idle()
        }
    );
}

#[test]
fn adding_animations_stretches_the_group() {
    let mut group = AnimationGroup::new();
    let short = TargetAnimation { target: 1, animation: animation(0, 0, 30, 60) };
    let long = TargetAnimation { target: 2, animation: animation(0, 1, 30, 15) };
    assert_eq!(group.add_target_animation(short), Ok(()));
    assert_eq!(group.max_frame(), frames(30));
    assert_eq!(group.add_target_animation(long), Ok(()));
    assert_eq!(group.max_frame(), frames(120));
    assert_eq!(group.add_target_animation(short), Ok(()));
    assert_eq!(group.max_frame(), frames(120));
    assert_eq!(group.animations().as_slice(), &[short, long, short]);
    let cleared = group.clear();
    assert_eq!(cleared, vec![short.animation, long.animation, short.animation]);
    assert!(group.animations().is_empty());
    assert_eq!(group.max_frame(), frames(120));
}

#[test]
fn forced_length() {
    let mut group = group_with(1, 60);
    group.force_total_frame(30, Some(frames(45)));
    assert_eq!(group.max_frame(), frames(90));
    assert_eq!(group.get_state().max_frame, frames(60));
    group.force_total_frame(30, None);
    assert_eq!(group.max_frame(), frames(60));
    group.force_total_frame(30, Some(frames(45)));
    group.force_total_frame(0, Some(frames(45)));
    assert_eq!(group.max_frame(), frames(60));
    assert_eq!(group.get_state().force_max_frame, None);
}

#[test]
fn start_sets_the_run_up() {
    let mut group = group_with(1, 60);
    let mut info = AnimationGroupRuntimeInfo::idle();
    info.is_playing = true;
    info.start_event = true;
    info.looped_count = 9;
    let r = group.start(
        2 * FIXED_ONE,
        ELoopMode::Opposite(Some(3)),
        frames(48),
        frames(12),
        30,
        &mut info,
        AnimationAmountCalc::from_steps(2, EStepMode::JumpEnd),
        ms(40),
        EFillMode::BOTH,
    );
    assert_eq!(r, Ok(()));
    let state = group.get_state();
    assert!(state.is_playing);
    assert_eq!(state.speed, 2 * FIXED_ONE);
    assert_eq!(state.from, frames(12));
    assert_eq!(state.to, frames(48));
    assert_eq!(state.once_time_ms, ms(600));
    assert_eq!(state.frame_ms, 33_333_333);
    assert_eq!(state.loop_count, Some(3));
    assert_eq!(state.loop_mode, ELoopMode::Opposite(Some(3)));
    assert_eq!(state.amount, AmountCalc::Opposite);
    assert_eq!(state.delay_time_ms, ms(40));
    assert_eq!(state.fill_mode, EFillMode::BOTH);
    assert_eq!(state.amount_calc_between_frame, AnimationAmountCalc::Steps(2, EStepMode::JumpEnd));
    assert_eq!(state.amount_calc, AnimationAmountCalc::Linear);
    assert_eq!(state.running_time_ms, 0);
    assert_eq!(state.amount_in_second, 800_000);
    assert_eq!(
        info,
        AnimationGroupRuntimeInfo {
            last_amount_in_second: 800_000,
            amount_in_second: 800_000,
            looped_count: 0,
            is_playing: true,
            loop_event: false,
            start_event: false,
            end_event: false,
        }
    );
}

#[test]
fn start_is_refused_while_playing_or_without_a_frame_rate() {
    let mut group = group_with(1, 60);
    let mut info = AnimationGroupRuntimeInfo::idle();
    let before = group.get_state();
    let r = group.start(
        FIXED_ONE,
        ELoopMode::Positive(None),
        0,
        frames(60),
        0,
        &mut info,
        AnimationAmountCalc::default(),
        0,
        EFillMode::NONE,
    );
    assert_eq!(r, Err(EAnimationError::AnimationFramePerSecondCannotZero));
    assert_eq!(group.get_state(), before);
    assert_eq!(info, AnimationGroupRuntimeInfo::idle());

    start(&mut group, &mut info, FIXED_ONE, ELoopMode::Not, 0, 60, EFillMode::NONE);
    tick(&mut group, &mut info, 100);
    let running = group.get_state();
    let record = info;
    let r = group.start_complete(
        FIXED_ONE,
        ELoopMode::Positive(None),
        60,
        AnimationAmountCalc::default(),
        &mut info,
        0,
        EFillMode::NONE,
    );
    assert_eq!(r, Err(EAnimationError::AnimationGroupHasStarted));
    assert_eq!(group.get_state(), running);
    assert_eq!(info, record);
    let r = group.start_with_progress(
        FIXED_ONE,
        ELoopMode::Positive(None),
        0,
        FIXED_ONE,
        0,
        &mut info,
        AnimationAmountCalc::default(),
        0,
        EFillMode::NONE,
    );
    assert_eq!(r, Err(EAnimationError::AnimationGroupHasStarted));
}

#[test]
fn start_complete_and_start_with_progress() {
    let mut group = group_with(1, 120);
    let mut info = AnimationGroupRuntimeInfo::idle();
    group
        .start_complete(
            4 * FIXED_ONE,
            ELoopMode::Not,
            60,
            AnimationAmountCalc::default(),
            &mut info,
            0,
            EFillMode::NONE,
        )
        .unwrap();
    let state = group.get_state();
    assert_eq!(state.speed, 250_000);
    assert_eq!(state.from, 0);
    assert_eq!(state.to, frames(120));
    assert_eq!(state.once_time_ms, ms(2000));
    assert_eq!(state.loop_count, Some(1));
    group.stop();
    assert!(!group.get_state().is_playing);
    assert_eq!(group.get_state().to, frames(120));

    group
        .start_with_progress(
            FIXED_ONE,
            ELoopMode::PositivePly(None),
            750_000,
            250_000,
            60,
            &mut info,
            AnimationAmountCalc::default(),
            0,
            EFillMode::NONE,
        )
        .unwrap();
    let state = group.get_state();
    assert_eq!(state.from, frames(30));
    assert_eq!(state.to, frames(90));
    assert_eq!(state.once_time_ms, ms(1000));
    assert_eq!(state.loop_count, None);
    assert_eq!(state.amount_in_second, 500_000);
}

#[test]
fn frame_gate_gathers_short_ticks() {
    let mut group = group_with(1, 60);
    let mut info = AnimationGroupRuntimeInfo::idle();
    start(&mut group, &mut info, FIXED_ONE, ELoopMode::Not, 0, 60, EFillMode::NONE);
    assert_eq!(tick(&mut group, &mut info, 5), (true, false, false));
    assert_eq!(group.get_state().running_time_ms, ms(5));
    // Three quarters of a frame of 16.666666 ms are 12.499999 ms.
    assert_eq!(tick(&mut group, &mut info, 5), (false, false, false));
    assert_eq!(group.get_state().running_time_ms, ms(5));
    assert_eq!(group.get_state().delta_ms_record, ms(5));
    assert_eq!(tick(&mut group, &mut info, 5), (false, false, false));
    assert_eq!(group.get_state().delta_ms_record, ms(10));
    assert_eq!(info.amount_in_second, 0);
    assert_eq!(tick(&mut group, &mut info, 5), (false, false, false));
    assert_eq!(group.get_state().delta_ms_record, 0);
    assert_eq!(group.get_state().running_time_ms, ms(20));
    // Sampled at 5 ms of a pass that counts as 991.666667 ms.
    assert_eq!(info.amount_in_second, 5_042);
    assert_eq!(info.last_amount_in_second, 0);

    group.set_debug(true);
    assert_eq!(tick(&mut group, &mut info, 1), (false, false, false));
    assert_eq!(group.get_state().running_time_ms, ms(21));
    assert_eq!(info.amount_in_second, 20_168);
}

#[test]
fn looped_count_never_goes_down() {
    let mut group = group_with(1, 30);
    let mut info = AnimationGroupRuntimeInfo::idle();
    start(&mut group, &mut info, FIXED_ONE, ELoopMode::Positive(None), 0, 30, EFillMode::NONE);
    let mut last = 0;
    let mut loops = 0;
    for step in 0..200u64 {
        let (_, looped, ended) = tick(&mut group, &mut info, 13 + step % 40);
        assert!(!ended);
        assert!(info.looped_count >= last);
        if looped {
            loops += 1;
            assert!(info.looped_count > last);
        } else {
            assert_eq!(info.looped_count, last);
        }
        last = info.looped_count;
        assert_eq!(group.get_state().looped_count, last);
    }
    assert!(loops > 5);
    assert!(group.get_state().is_playing);
}

#[test]
fn backward_loop_with_a_limit_ends_on_the_first_frame() {
    let mut group = group_with(1, 30);
    let mut info = AnimationGroupRuntimeInfo::idle();
    start(&mut group, &mut info, FIXED_ONE, ELoopMode::Opposite(Some(2)), 0, 30, EFillMode::BOTH);
    assert_eq!(info.amount_in_second, 500_000);
    let mut history = vec![];
    for _ in 0..8 {
        history.push((tick(&mut group, &mut info, 250), info.amount_in_second, info.looped_count));
    }
    // A pass counts as 500 ms less half a frame: 491.666667 ms.
    assert_eq!(
        history,
        vec![
            ((true, false, false), 500_000, 0),
            ((false, false, false), 245_763, 0),
            ((false, true, false), 491_525, 1),
            ((false, false, false), 237_288, 1),
            ((false, false, true), 0, 2),
            ((false, false, false), 0, 2),
            ((false, false, false), 0, 2),
            ((false, false, false), 0, 2),
        ]
    );
}

#[test]
fn forwards_fill_holds_the_end() {
    for (fill, expected) in [(EFillMode::NONE, 500_000), (EFillMode::FORWARDS, 500_000)] {
        let mut group = group_with(1, 30);
        let mut info = AnimationGroupRuntimeInfo::idle();
        start(&mut group, &mut info, FIXED_ONE, ELoopMode::Not, 0, 30, fill);
        tick(&mut group, &mut info, 600);
        assert_eq!(tick(&mut group, &mut info, 600), (false, false, true));
        assert_eq!(info.amount_in_second, expected);
    }
    // A forward loop samples the start of the next pass unless the fill holds the end.
    for (fill, expected) in [(EFillMode::NONE, 110_169), (EFillMode::FORWARDS, 500_000)] {
        let mut group = group_with(1, 30);
        let mut info = AnimationGroupRuntimeInfo::idle();
        start(&mut group, &mut info, FIXED_ONE, ELoopMode::Positive(Some(1)), 0, 30, fill);
        tick(&mut group, &mut info, 600);
        assert_eq!(tick(&mut group, &mut info, 600), (false, false, true));
        assert_eq!(info.amount_in_second, expected);
    }
}

#[test]
fn tick_of_no_time() {
    let mut group = group_with(1, 60);
    let mut info = AnimationGroupRuntimeInfo::idle();
    start(&mut group, &mut info, FIXED_ONE, ELoopMode::Positive(None), 0, 60, EFillMode::NONE);
    assert_eq!(tick(&mut group, &mut info, 0), (true, false, false));
    assert_eq!(tick(&mut group, &mut info, 0), (true, false, false));
    assert_eq!(group.get_state().running_time_ms, 0);
    assert_eq!(tick(&mut group, &mut info, 1500), (true, false, false));
    let before = group.get_state();
    assert_eq!(tick(&mut group, &mut info, 0), (false, false, false));
    assert_eq!(group.get_state(), before);
    assert_eq!(tick(&mut group, &mut info, 100), (false, true, false));
}

#[test]
fn speed_zero_stands_still() {
    let mut group = group_with(1, 60);
    let mut info = AnimationGroupRuntimeInfo::idle();
    start(&mut group, &mut info, 0, ELoopMode::Positive(Some(1)), 0, 60, EFillMode::NONE);
    for _ in 0..20 {
        assert_eq!(tick(&mut group, &mut info, 1000), (true, false, false));
        assert_eq!(group.get_state().running_time_ms, 0);
        assert_eq!(info.amount_in_second, 0);
        assert_eq!(info.looped_count, 0);
    }
    assert!(group.get_state().is_playing);
}

#[test]
fn empty_frame_range() {
    let mut group = group_with(1, 60);
    let mut info = AnimationGroupRuntimeInfo::idle();
    start(&mut group, &mut info, FIXED_ONE, ELoopMode::Not, 20, 20, EFillMode::NONE);
    assert_eq!(group.get_state().once_time_ms, 0);
    assert_eq!(info.amount_in_second, 333_333);
    assert_eq!(tick(&mut group, &mut info, 5), (true, false, false));
    assert_eq!(info.amount_in_second, 333_333);
    // Half a frame of 16.666666 ms is not reached after 5 ms.
    assert_eq!(tick(&mut group, &mut info, 13), (false, false, false));
    assert_eq!(tick(&mut group, &mut info, 13), (false, false, true));
    assert_eq!(info.amount_in_second, 333_333);
    assert!(!group.get_state().is_playing);
}

#[test]
fn restart_repeats_the_run() {
    let mut group = group_with(1, 45);
    group.amount_calc(AnimationAmountCalc::from_steps(7, EStepMode::JumpBoth));
    let mut info = AnimationGroupRuntimeInfo::idle();
    let mut runs: Vec<Vec<(bool, bool, bool, Fixed, u32)>> = vec![];
    for ticks in [9usize, 30] {
        start(&mut group, &mut info, 1_300_000, ELoopMode::OppositePly(Some(4)), 5, 45, EFillMode::BOTH);
        let mut run = vec![];
        for step in 0..ticks as u64 {
            let (started, looped, ended) = tick(&mut group, &mut info, 20 + 37 * (step % 5));
            run.push((started, looped, ended, info.amount_in_second, info.looped_count));
        }
        runs.push(run);
        group.stop();
    }
    assert_eq!(runs[0][..], runs[1][..9]);
    assert!(runs[1].iter().any(|step| step.1));
}

#[test]
fn group_stages_one_evaluation_per_animation() {
    let mut group = AnimationGroup::new();
    let first = TargetAnimation { target: 4, animation: animation(1, 3, 60, 60) };
    let second = TargetAnimation { target: 9, animation: animation(0, 5, 30, 60) };
    let third = TargetAnimation { target: 4, animation: animation(1, 6, 60, 60) };
    let lost = TargetAnimation { target: 4, animation: animation(2, 0, 60, 60) };
    for one in [first, second, third, lost] {
        group.add_target_animation(one).unwrap();
    }
    group.set_blend_weight(400_000);
    let mut info = AnimationGroupRuntimeInfo::idle();
    group
        .start(
            FIXED_ONE,
            ELoopMode::Not,
            frames(6),
            frames(60),
            60,
            &mut info,
            AnimationAmountCalc::from_steps(3, EStepMode::JumpEnd),
            0,
            EFillMode::NONE,
        )
        .unwrap();
    let mut map = RuntimeInfoMap::default();
    map.add_type(1);
    group.anime(&mut map, ms(10), &mut info);
    assert!(info.start_event);
    assert_eq!(info.amount_in_second, 100_000);

    let zero = map.get_type_list(0).unwrap();
    assert_eq!(zero.targets().as_slice(), &[9]);
    let staged = zero.get(9).unwrap();
    assert_eq!(staged.len(), 1);
    assert_eq!(staged[0].curve_id, 5);
    assert_eq!(staged[0].attr, 7);
    assert_eq!(staged[0].group_weight, 400_000);
    assert_eq!(staged[0].amount_in_second, 100_000);
    assert_eq!(staged[0].amount_calc, AnimationAmountCalc::Steps(3, EStepMode::JumpEnd));

    let one = map.get_type_list(1).unwrap();
    assert_eq!(one.targets().as_slice(), &[4]);
    let staged = one.get(4).unwrap();
    assert_eq!(staged.iter().map(|info| info.curve_id).collect::<Vec<_>>(), vec![3, 6]);
    assert!(one.get(9).is_none());
    assert!(map.get_type_list(2).is_none());
}

#[test]
fn blend_weight_is_attribute_zero() {
    let mut group = AnimationGroup::new();
    assert_eq!(group.anime_modify(0, 250_000), Ok(()));
    assert_eq!(group.get_state().blend_weight, 250_000);
    assert_eq!(group.anime_modify(1, 750_000), Ok(()));
    assert_eq!(group.get_state().blend_weight, 250_000);
    group.set_blend_weight(FIXED_ONE);
    assert_eq!(group.get_state().blend_weight, FIXED_ONE);
    let id = AnimationGroupID { index: 3, version: 1 };
    assert!(!id.is_null());
    group.set_id(id);
    assert_eq!(group.get_state().id, id);
}

#[test]
fn sampled_shaper_joins_its_samples() {
    let mut samples = [0u32; 33];
    for (index, sample) in samples.iter_mut().enumerate() {
        // The square of the position: an ease that starts slowly.
        *sample = (index * index * 1_000_000 / (32 * 32)) as u32;
    }
    let ease = AnimationAmountCalc::from_samples(samples);
    assert_eq!(ease, AnimationAmountCalc::Sampled(samples));
    assert_eq!(ease.calc(0), 0);
    assert_eq!(ease.calc(FIXED_ONE), FIXED_ONE);
    assert_eq!(ease.calc(FIXED_ONE + 1), FIXED_ONE);
    assert_eq!(ease.calc(500_000), 250_000);
    assert_eq!(ease.calc(31_250), 976);
    // Half way between the samples 976 and 3906.
    assert_eq!(ease.calc(46_875), 2_441);
    // A quarter of the way from the sample 938_476 at 31/32 to one.
    assert_eq!(ease.calc(976_563), 953_857);

    samples[32] = 4_000_000;
    samples[16] = 2_000_000;
    let held = AnimationAmountCalc::from_samples(samples);
    assert_eq!(held.calc(FIXED_ONE), FIXED_ONE);
    assert_eq!(held.calc(500_000), FIXED_ONE);
    assert_eq!(held.calc(31_250), 976);
}

#[test]
fn group_runs_under_a_sampled_shaper() {
    let mut samples = [0u32; 33];
    for (index, sample) in samples.iter_mut().enumerate() {
        *sample = (1_000_000 - index * 1_000_000 / 32) as u32;
    }
    let mut group = group_with(1, 60);
    group.amount_calc(AnimationAmountCalc::from_samples(samples));
    let mut info = AnimationGroupRuntimeInfo::idle();
    start(&mut group, &mut info, FIXED_ONE, ELoopMode::Not, 0, 60, EFillMode::NONE);
    assert_eq!(tick(&mut group, &mut info, 500), (true, false, false));
    assert_eq!(info.amount_in_second, FIXED_ONE);
    assert_eq!(tick(&mut group, &mut info, 500), (false, false, false));
    // Sampled at 500 ms of 991.666667 ms, on the line that falls from one to zero.
    assert_eq!(info.amount_in_second, 495_799);
    assert_eq!(tick(&mut group, &mut info, 500), (false, false, true));
    assert_eq!(info.amount_in_second, 0);
}

/// A run is at its start until its running time reaches a thousandth of a
/// millisecond.
#[test]
fn start_event_is_raised_while_the_clock_has_not_moved() {
    let mut group = group_with(1, 60);
    let mut info = AnimationGroupRuntimeInfo::idle();
    // At this speed a tick of 1 ms moves the clock by 0.0004 ms.
    start(&mut group, &mut info, 400, ELoopMode::Not, 0, 60, EFillMode::NONE);
    assert_eq!(tick(&mut group, &mut info, 1), (true, false, false));
    assert_eq!(group.get_state().running_time_ms, 400);
    assert_eq!(tick(&mut group, &mut info, 1), (true, false, false));
    assert_eq!(group.get_state().running_time_ms, 800);
    assert_eq!(tick(&mut group, &mut info, 1), (true, false, false));
    assert_eq!(group.get_state().running_time_ms, 1_200);
    assert_eq!(tick(&mut group, &mut info, 1), (false, false, false));
    assert_eq!(group.get_state().running_time_ms, 1_200);
    assert_eq!(group.get_state().delta_ms_record, ms(1));
}

/// With speed zero a backward run stays at the end of its range, one unit
/// of the last digit below the position that the start gave: the length of
/// the range and its start are each rounded down.
#[test]
fn speed_zero_holds_the_end_of_the_range() {
    for mode in [ELoopMode::Opposite(None), ELoopMode::OppositePly(Some(3))] {
        let mut group = group_with(1, 62);
        let mut info = AnimationGroupRuntimeInfo::idle();
        start(&mut group, &mut info, 0, mode, 1, 62, EFillMode::NONE);
        assert_eq!(info.amount_in_second, 1_033_333);
        for _ in 0..20 {
            tick(&mut group, &mut info, 1000);
            assert_eq!(info.amount_in_second, 1_033_332);
            assert_eq!(group.get_state().running_time_ms, 0);
            assert_eq!(info.looped_count, 0);
        }
        assert!(group.get_state().is_playing);
    }
    for mode in [ELoopMode::Not, ELoopMode::Positive(None), ELoopMode::PositivePly(Some(3))] {
        let mut group = group_with(1, 62);
        let mut info = AnimationGroupRuntimeInfo::idle();
        start(&mut group, &mut info, 0, mode, 1, 62, EFillMode::NONE);
        assert_eq!(info.amount_in_second, 16_666);
        for _ in 0..20 {
            tick(&mut group, &mut info, 1000);
            assert_eq!(info.amount_in_second, 16_666);
        }
        assert!(group.get_state().is_playing);
    }
}
