use pi_animation::amount::{AnimationAmountCalc, EStepMode};
use pi_animation::animation_group::AnimationGroupID;
use pi_animation::animation_group_manager::{AnimationGroupManager, AnimationGroupManagerDefault};
use pi_animation::animation_listener::{
    AnimationListener, EAnimationEvent, EAnimationEventResult, ListenResult,
};
use pi_animation::animation_result_pool::{
    AnimeResult, TypeAnimationResultPool, TypeAnimationResultPoolDefault,
};
use pi_animation::base::{EFillMode, Fixed, FIXED_ONE};
use pi_animation::curve_frame_event::CurveFrameEvent;
use pi_animation::error::EAnimationError;
use pi_animation::frame_curve_manager::FrameCurveInfo;
use pi_animation::loop_mode::ELoopMode;
use pi_animation::runtime_info::RuntimeInfoMap;
use pi_animation::target_modifier::{
    IDAnimatableAttr, IDAnimatableTarget, IDAnimatableTargetAllocator,
    IDAnimatableTargetAllocatorDefault, TAnimatableTargetId, TAnimatableTargetModifier,
};
use pi_animation::type_animation_context::{AnimationContextAmount, TypeAnimationContext};
use std::cell::RefCell;
use std::rc::Rc;

type Context = AnimationContextAmount<AnimationGroupManagerDefault>;
type Callback = Box<dyn Fn() -> ListenResult>;
type LoopCallback = Box<dyn Fn(u32) -> ListenResult>;
type FrameCallback = Box<dyn Fn(Vec<TestFrameEventData>) -> ListenResult>;
type Listener = AnimationListener<Callback, Callback, LoopCallback, FrameCallback>;

fn ms(value: u64) -> Fixed {
    value * FIXED_ONE
}

fn frames(value: u64) -> Fixed {
    value * FIXED_ONE
}

fn seconds(value: Fixed) -> f32 {
    value as f32 / FIXED_ONE as f32
}

/// A straight line from `from` at frame 0 to `to` at the last frame.
#[derive(Debug, Clone)]
struct Curve {
    from: f32,
    to: f32,
    frame_count: u16,
    design_fps: u16,
}

impl Curve {
    fn easing(from: f32, to: f32, frame_count: u16, design_fps: u16) -> Curve {
        Curve { from, to, frame_count, design_fps }
    }

    fn info(&self) -> FrameCurveInfo {
        FrameCurveInfo::new(self.frame_count, 0, self.design_fps)
    }
}

fn interple(curve: &Curve, amount_in_second: Fixed, _calc: &AnimationAmountCalc) -> f32 {
    let frame = seconds(amount_in_second) * curve.design_fps as f32;
    let progress = (frame / curve.frame_count as f32).clamp(0.0, 1.0);
    curve.from + (curve.to - curve.from) * progress
}

struct Target0 {
    anim_target: IDAnimatableTarget,
    v2: f32,
}

impl Target0 {
    fn default(anim_target: IDAnimatableTarget) -> Self {
        Self { v2: 0., anim_target }
    }
}

enum Target0AnimatableAttrSet {
    V0,
    V0a,
    V1,
    V2,
}

impl Target0AnimatableAttrSet {
    fn attr(self) -> IDAnimatableAttr {
        match self {
            Target0AnimatableAttrSet::V0 => 0,
            Target0AnimatableAttrSet::V0a => 1,
            Target0AnimatableAttrSet::V1 => 2,
            Target0AnimatableAttrSet::V2 => 3,
        }
    }
}

impl TAnimatableTargetId<IDAnimatableTarget> for Target0 {
    fn anime_target_id(&self) -> IDAnimatableTarget {
        self.anim_target
    }
}

impl TAnimatableTargetModifier<f32> for Target0 {
    fn anime_modify(&mut self, attr: IDAnimatableAttr, value: f32) -> Result<(), EAnimationError> {
        self.v2 = value;
        println!("Target Modify: Attr: {:?}, Value: {:?}", attr, value);
        Ok(())
    }
}

struct TypeAnimationContextMgr {
    f32_ctx: TypeAnimationContext<Curve>,
    f32_result_pool: TypeAnimationResultPoolDefault<f32>,
    runtime_infos: RuntimeInfoMap,
    target_allocator: IDAnimatableTargetAllocatorDefault,
}

impl TypeAnimationContextMgr {
    fn default() -> Self {
        let mut runtime_infos = RuntimeInfoMap::default();
        let _value0_ctx: TypeAnimationContext<Curve> = TypeAnimationContext::new(0, &mut runtime_infos);
        let _value1_ctx: TypeAnimationContext<Curve> = TypeAnimationContext::new(1, &mut runtime_infos);
        let f32_ctx = TypeAnimationContext::new(2, &mut runtime_infos);
        Self {
            f32_ctx,
            f32_result_pool: TypeAnimationResultPoolDefault::default(),
            runtime_infos,
            target_allocator: IDAnimatableTargetAllocatorDefault::default(),
        }
    }

    fn anime(&mut self, context: &mut Context, delta_ms: u64) -> Result<(), Vec<EAnimationError>> {
        self.reset();
        context.anime_curve_calc(delta_ms, &mut self.runtime_infos);
        self.f32_ctx.anime(&self.runtime_infos, &mut self.f32_result_pool, interple)
    }

    fn reset(&mut self) {
        self.runtime_infos.reset();
        self.f32_result_pool.reset();
    }

    fn allocat_target_id(&mut self) -> IDAnimatableTarget {
        let id = self.target_allocator.allocat().unwrap();
        self.f32_result_pool.record_target(id);
        id
    }
}

fn new_context() -> Context {
    AnimationContextAmount::default(AnimationGroupManagerDefault::default())
}

fn events_of(context: &Context, kind: EAnimationEvent) -> usize {
    context.group_events.iter().filter(|event| event.1 == kind).count()
}

#[derive(Debug, Clone, Copy, PartialEq)]
pub enum TestFrameEventData {
    Test0,
    Test1,
}

#[test]
fn test_animatable_float1() {
    let mut type_animation_ctx_mgr = TypeAnimationContextMgr::default();
    let mut animation_context_amount = new_context();
    animation_context_amount.debug(true);

    let mut target = Target0::default(type_animation_ctx_mgr.allocat_target_id());

    let frame_count: u16 = 30;
    let curve1 = Curve::easing(0.0f32, 100.0f32, frame_count, frame_count);
    let animation0 = type_animation_ctx_mgr.f32_ctx.create_animation(
        Target0AnimatableAttrSet::V2.attr(),
        curve1.info(),
        curve1,
    );

    let group0 = animation_context_amount.create_animation_group();
    animation_context_amount
        .add_target_animation_notype(animation0, group0, target.anime_target_id())
        .unwrap();
    animation_context_amount
        .start_with_progress(
            group0,
            FIXED_ONE,
            ELoopMode::Not,
            0,
            FIXED_ONE,
            frame_count,
            AnimationAmountCalc::default(),
            ms(100),
            EFillMode::NONE,
        )
        .unwrap();

    type_animation_ctx_mgr.anime(&mut animation_context_amount, 70).unwrap();
    let results = type_animation_ctx_mgr.f32_result_pool.query_result(target.anime_target_id());
    println!("{:?}", results);
    assert!(results.is_empty());
    results.iter().for_each(|value| {
        target.anime_modify(value.attr, value.value).unwrap();
    });

    type_animation_ctx_mgr.anime(&mut animation_context_amount, 51).unwrap();
    let results = type_animation_ctx_mgr.f32_result_pool.query_result(target.anime_target_id());
    println!("{:?}", results);
    assert!(results.is_empty());
    results.iter().for_each(|value| {
        target.anime_modify(value.attr, value.value).unwrap();
    });

    let mut ended = false;
    for _ in 0..22 {
        type_animation_ctx_mgr.anime(&mut animation_context_amount, 50).unwrap();
        ended = ended || events_of(&animation_context_amount, EAnimationEvent::End) == 1;
        let results =
            type_animation_ctx_mgr.f32_result_pool.query_result(target.anime_target_id());
        println!("{:?}", results);
        results.iter().for_each(|value| {
            target.anime_modify(value.attr, value.value).unwrap();
        });
    }
    assert!(ended);
    assert!((target.v2 - 100.0).abs() < 0.001);
}

fn printing_listener(group: AnimationGroupID) -> Listener {
    AnimationListener {
        group,
        on_start: vec![Box::new(|| {
            println!("Group Event Start.");
            Ok(EAnimationEventResult::RemoveListen)
        })],
        on_end: vec![Box::new(|| {
            println!("Group Event End.");
            Ok(EAnimationEventResult::RemoveListen)
        })],
        on_loop: vec![Box::new(|looped_count| {
            println!("Group Event Loop {}.", looped_count);
            Ok(EAnimationEventResult::Stay)
        })],
        on_frame_event: vec![Box::new(|events| {
            events.iter().for_each(|v| {
                println!("Group Event Frame Event {:?}.", v);
            });
            Ok(EAnimationEventResult::Stay)
        })],
    }
}

#[test]
fn test_event() {
    let mut type_animation_ctx_mgr = TypeAnimationContextMgr::default();
    let mut animation_context_amount = new_context();
    animation_context_amount.debug(true);

    let target = Target0::default(type_animation_ctx_mgr.allocat_target_id());

    let frame_count: u16 = 60;
    let curve1 = Curve::easing(0.0f32, 100.0f32, frame_count, frame_count);
    let animation0 = type_animation_ctx_mgr.f32_ctx.create_animation(
        Target0AnimatableAttrSet::V2.attr(),
        curve1.info(),
        curve1,
    );

    let group0 = animation_context_amount.create_animation_group();
    animation_context_amount
        .add_target_animation_notype(animation0, group0, target.anime_target_id())
        .unwrap();
    animation_context_amount
        .start_complete(
            group0,
            FIXED_ONE,
            ELoopMode::Not,
            30,
            AnimationAmountCalc::default(),
            0,
            EFillMode::BACKWARDS,
        )
        .unwrap();

    let _curve_frame_event = CurveFrameEvent::<TestFrameEventData>::new(frames(60));
    let _listener = printing_listener(group0);

    let mut starts = 0;
    let mut ends = 0;
    let mut loops = 0;
    for _ in 0..100 {
        type_animation_ctx_mgr.runtime_infos.reset();
        animation_context_amount.anime_curve_calc(30, &mut type_animation_ctx_mgr.runtime_infos);
        for (group_id, ty, count) in animation_context_amount.group_events.iter() {
            println!("AG: {:?}, {:?}, {:?}", group_id, ty, count);
            assert_eq!(*group_id, group0);
            match ty {
                EAnimationEvent::Start => starts += 1,
                EAnimationEvent::End => ends += 1,
                EAnimationEvent::Loop => loops += 1,
                _ => unreachable!(),
            }
        }
    }
    assert_eq!(starts, 1);
    assert_eq!(ends, 1);
    assert_eq!(loops, 0);
}

#[test]
fn test_step_amount() {
    let mut type_animation_ctx_mgr = TypeAnimationContextMgr::default();
    let mut animation_context_amount = new_context();
    animation_context_amount.debug(true);

    let mut target = Target0::default(type_animation_ctx_mgr.allocat_target_id());

    let frame_count: u16 = 60;
    let curve1 = Curve::easing(0.0f32, 100.0f32, frame_count, frame_count);
    let animation0 = type_animation_ctx_mgr.f32_ctx.create_animation(
        Target0AnimatableAttrSet::V2.attr(),
        curve1.info(),
        curve1,
    );

    let group0 = animation_context_amount.create_animation_group();
    animation_context_amount
        .add_target_animation_notype(animation0, group0, target.anime_target_id())
        .unwrap();
    animation_context_amount
        .start_complete(
            group0,
            FIXED_ONE,
            ELoopMode::Not,
            30,
            AnimationAmountCalc::from_steps(5, EStepMode::JumpNone),
            0,
            EFillMode::BACKWARDS,
        )
        .unwrap();

    let mut curve_frame_event = CurveFrameEvent::<TestFrameEventData>::new(frames(60));
    curve_frame_event.add(10, TestFrameEventData::Test0);
    curve_frame_event.add(50, TestFrameEventData::Test1);
    let seen: Rc<RefCell<Vec<TestFrameEventData>>> = Rc::new(RefCell::new(vec![]));
    let sink = seen.clone();
    let mut listener = printing_listener(group0);
    listener.on_frame_event.push(Box::new(move |events| {
        sink.borrow_mut().extend(events);
        Ok(EAnimationEventResult::Stay)
    }));

    for _ in 0..300 {
        type_animation_ctx_mgr.anime(&mut animation_context_amount, 50).unwrap();
        animation_context_amount.animation_event(&mut listener, Some(&curve_frame_event));
        let results =
            type_animation_ctx_mgr.f32_result_pool.query_result(target.anime_target_id());
        results.iter().for_each(|value| {
            target.anime_modify(value.attr, value.value).unwrap();
        });
    }
    assert!(listener.on_start.is_empty());
    assert!(listener.on_end.is_empty());
    assert_eq!(listener.on_loop.len(), 1);
    assert_eq!(listener.on_frame_event.len(), 2);
    assert_eq!(*seen.borrow(), vec![TestFrameEventData::Test0, TestFrameEventData::Test1]);
    assert!((target.v2 - 100.0).abs() < 0.001);
}

#[test]
fn test_frames() {
    let mut type_animation_ctx_mgr = TypeAnimationContextMgr::default();
    let mut animation_context_amount = new_context();
    animation_context_amount.debug(true);

    let curve1 = Curve::easing(0.0f32, 1.0f32, 10000, 10000);
    println!("{:?}", curve1);

    let mut targets = vec![];
    let mut groups = vec![];
    for i in 0..1usize {
        type_animation_ctx_mgr.runtime_infos.reset();
        animation_context_amount.anime_curve_calc(200, &mut type_animation_ctx_mgr.runtime_infos);
        let list = std::mem::replace(&mut animation_context_amount.group_events, vec![]);
        assert!(list.is_empty());
        for (group_id, ty, count) in list.iter() {
            println!("AG 0: {:?}, {:?}, {:?}", group_id, ty, count);
            match ty {
                EAnimationEvent::Nothing => {},
                EAnimationEvent::Start => {},
                EAnimationEvent::End => {
                    animation_context_amount.del_animation_group(*group_id);
                },
                EAnimationEvent::Loop => {},
                EAnimationEvent::FrameEvent => {},
            }
        }

        for _ in 0..3 {
            targets.push(Target0::default(type_animation_ctx_mgr.allocat_target_id()));
            let target = targets.get(i).unwrap();
            let group0 = animation_context_amount.create_animation_group();
            let animation0 = type_animation_ctx_mgr.f32_ctx.create_animation(
                Target0AnimatableAttrSet::V2.attr(),
                curve1.info(),
                curve1.clone(),
            );
            animation_context_amount
                .add_target_animation_notype(animation0, group0, target.anime_target_id())
                .unwrap();
            // Half a second and a tenth more for every fifth round; a sign counts for nothing.
            let duration: Fixed = 500_000 + (i as u64 % 5) * 100_000;
            animation_context_amount
                .start_complete(
                    group0,
                    duration,
                    ELoopMode::Not,
                    60,
                    AnimationAmountCalc::default(),
                    0,
                    EFillMode::BACKWARDS,
                )
                .unwrap();
            groups.push(group0);
        }
    }

    let mut curve_frame_event = CurveFrameEvent::<TestFrameEventData>::new(frames(60));
    curve_frame_event.add(10, TestFrameEventData::Test0);
    curve_frame_event.add(50, TestFrameEventData::Test1);

    let mut started = vec![];
    let mut ended = vec![];
    for tick in 0..200 {
        type_animation_ctx_mgr.runtime_infos.reset();
        animation_context_amount.anime_curve_calc(40, &mut type_animation_ctx_mgr.runtime_infos);
        let list = std::mem::replace(&mut animation_context_amount.group_events, vec![]);
        for (group_id, ty, count) in list.iter() {
            println!("AG 1: {:?}, {:?}, {:?}", group_id, ty, count);
            match ty {
                EAnimationEvent::Nothing => {},
                EAnimationEvent::Start => {
                    started.push((tick, *group_id));
                },
                EAnimationEvent::End => {
                    ended.push((tick, *group_id));
                    animation_context_amount.del_animation_group(*group_id);
                },
                EAnimationEvent::Loop => {},
                EAnimationEvent::FrameEvent => {},
            }
        }
    }
    // Each group runs at speed 2 over a pass of 1000 ms: the tick at 520 ms finds it over.
    assert_eq!(started, groups.iter().map(|group| (0, *group)).collect::<Vec<_>>());
    assert_eq!(ended, groups.iter().map(|group| (13, *group)).collect::<Vec<_>>());
    for group in groups.iter() {
        assert!(animation_context_amount.animation_group(*group).is_none());
    }
    assert_eq!(animation_context_amount.removed_animations.len(), 3);
}

/// One linear curve from 0 to 100 over 60 frames, played once at speed 1:
/// the first tick samples the start, the second samples 100 ms in.
#[test]
fn scenario_simple_ease() {
    let mut mgr = TypeAnimationContextMgr::default();
    let mut context = new_context();
    let target = mgr.allocat_target_id();
    let curve = Curve::easing(0.0, 100.0, 60, 60);
    let animation = mgr.f32_ctx.create_animation(3, curve.info(), curve);
    let group = context.create_animation_group();
    context.add_target_animation_notype(animation, group, target).unwrap();
    context
        .start_with_progress(
            group,
            FIXED_ONE,
            ELoopMode::Not,
            0,
            FIXED_ONE,
            60,
            AnimationAmountCalc::default(),
            0,
            EFillMode::NONE,
        )
        .unwrap();

    mgr.anime(&mut context, 100).unwrap();
    assert_eq!(context.group_events, vec![(group, EAnimationEvent::Start, 0)]);
    let first = mgr.f32_result_pool.query_result(target);
    assert_eq!(first.len(), 1);
    assert_eq!(first[0].value, 0.0);

    mgr.anime(&mut context, 100).unwrap();
    assert!(context.group_events.is_empty());
    let info = context.group_infos.get(group).unwrap();
    // 100 ms of a pass that counts as 1000 ms less half a frame of 16.666666 ms.
    assert_eq!(info.amount_in_second, 100_840);
    assert_eq!(info.last_amount_in_second, 0);
    let second = mgr.f32_result_pool.query_result(target);
    assert_eq!(second.len(), 1);
    assert_eq!(second[0].attr, 3);
    assert_eq!(second[0].weight, FIXED_ONE);
    assert!((seconds(info.amount_in_second) - 0.1).abs() < 0.002);
    assert!((second[0].value - 10.0).abs() < 0.2);
}

/// A ping-pong over 30 frames that ends after two round trips, ticked every
/// 250 ms: one loop event, one end event, and the forwards fill holds the
/// start of the range.
#[test]
fn scenario_ply_round_trip() {
    let mut mgr = TypeAnimationContextMgr::default();
    let mut context = new_context();
    let target = mgr.allocat_target_id();
    let curve = Curve::easing(0.0, 1.0, 30, 60);
    let animation = mgr.f32_ctx.create_animation(0, curve.info(), curve);
    let group = context.create_animation_group();
    context.add_target_animation_notype(animation, group, target).unwrap();
    context
        .start(
            group,
            FIXED_ONE,
            ELoopMode::PositivePly(Some(2)),
            0,
            frames(30),
            60,
            AnimationAmountCalc::default(),
            0,
            EFillMode::FORWARDS,
        )
        .unwrap();

    let mut history: Vec<(usize, EAnimationEvent, u32)> = vec![];
    for tick in 0..12 {
        mgr.anime(&mut context, 250).unwrap();
        for (id, kind, count) in context.group_events.iter() {
            assert_eq!(*id, group);
            history.push((tick, *kind, *count));
        }
        mgr.f32_result_pool.query_result(target);
    }
    assert_eq!(
        history,
        vec![
            (0, EAnimationEvent::Start, 0),
            (4, EAnimationEvent::Loop, 1),
            (8, EAnimationEvent::End, 2),
        ]
    );
    let info = context.group_infos.get(group).unwrap();
    assert_eq!(info.amount_in_second, 0);
    assert_eq!(info.looped_count, 2);
    assert!(!context.animation_group(group).unwrap().get_state().is_playing);
}

/// A start delay of 200 ms with a backwards fill, ticked every 50 ms: the
/// four ticks inside the delay hold the first frame and raise nothing; the
/// fifth finds the delay over and starts the run from the first frame.
#[test]
fn scenario_delayed_backwards_fill() {
    let mut mgr = TypeAnimationContextMgr::default();
    let mut context = new_context();
    let target = mgr.allocat_target_id();
    let curve = Curve::easing(10.0, 20.0, 60, 60);
    let animation = mgr.f32_ctx.create_animation(0, curve.info(), curve);
    let group = context.create_animation_group();
    context.add_target_animation_notype(animation, group, target).unwrap();
    context
        .start_with_progress(
            group,
            FIXED_ONE,
            ELoopMode::Not,
            0,
            FIXED_ONE,
            60,
            AnimationAmountCalc::default(),
            ms(200),
            EFillMode::BACKWARDS,
        )
        .unwrap();

    for tick in 0..5 {
        mgr.anime(&mut context, 50).unwrap();
        let results = mgr.f32_result_pool.query_result(target);
        assert_eq!(results.len(), 1);
        assert_eq!(results[0].value, 10.0);
        if tick < 4 {
            assert!(context.group_events.is_empty());
        } else {
            assert_eq!(context.group_events, vec![(group, EAnimationEvent::Start, 0)]);
        }
    }
}

/// Without a backwards fill the ticks inside the delay stage nothing.
#[test]
fn delay_without_fill_stages_nothing() {
    let mut mgr = TypeAnimationContextMgr::default();
    let mut context = new_context();
    let target = mgr.allocat_target_id();
    let curve = Curve::easing(10.0, 20.0, 60, 60);
    let animation = mgr.f32_ctx.create_animation(0, curve.info(), curve);
    let group = context.create_animation_group();
    context.add_target_animation_notype(animation, group, target).unwrap();
    context
        .start_with_progress(
            group,
            FIXED_ONE,
            ELoopMode::Opposite(None),
            0,
            FIXED_ONE,
            60,
            AnimationAmountCalc::default(),
            ms(200),
            EFillMode::FORWARDS,
        )
        .unwrap();
    for _ in 0..4 {
        mgr.anime(&mut context, 50).unwrap();
        assert!(mgr.f32_result_pool.query_result(target).is_empty());
        assert!(context.group_events.is_empty());
    }
    mgr.anime(&mut context, 50).unwrap();
    let results = mgr.f32_result_pool.query_result(target);
    // A backward loop opens on the last frame.
    assert_eq!(results.len(), 1);
    assert_eq!(results[0].value, 20.0);
}

/// The slot of a deleted group's curve is the slot of the next curve.
#[test]
fn scenario_slot_reuse() {
    let mut mgr = TypeAnimationContextMgr::default();
    let mut context = new_context();
    let target = mgr.allocat_target_id();

    let keep = Curve::easing(0.0, 1.0, 60, 60);
    let kept = mgr.f32_ctx.create_animation(0, keep.info(), keep);
    assert_eq!(kept.curve_id, 0);

    let group = context.create_animation_group();
    let curve = Curve::easing(0.0, 1.0, 60, 60);
    context
        .add_target_animation(&mut mgr.f32_ctx, curve.info(), curve, group, target)
        .unwrap();
    let slot = context.animation_group(group).unwrap().animations()[0].animation.curve_id;
    assert_eq!(slot, 1);
    assert!(mgr.f32_ctx.curves()[slot].is_some());

    context.del_animation_group(group);
    assert!(context.animation_group(group).is_none());
    assert_eq!(context.removed_animations.len(), 1);
    assert!(mgr.f32_ctx.curves()[slot].is_some());

    context.apply_removed_animations(&mut mgr.f32_ctx);
    assert!(mgr.f32_ctx.curves()[slot].is_none());
    assert!(mgr.f32_ctx.curves()[0].is_some());
    assert_eq!(context.removed_animations.len(), 1);
    context.clear_removed_animations();
    assert!(context.removed_animations.is_empty());

    let again = context.create_animation_group();
    let curve = Curve::easing(5.0, 6.0, 60, 60);
    context
        .add_target_animation(&mut mgr.f32_ctx, curve.info(), curve, again, target)
        .unwrap();
    let reused = context.animation_group(again).unwrap().animations()[0].animation;
    assert_eq!(reused.curve_id, slot);
    assert_eq!(reused.ty, 2);
    assert_eq!(reused.attr, 0);
    assert_eq!(mgr.f32_ctx.curves().len(), 2);
    assert_eq!(mgr.f32_ctx.curves()[slot].as_ref().unwrap().from, 5.0);
}

/// A curve from 0 to 1 over 60 frames under a staircase of five steps
/// without a jump at either end, ticked every 100 ms.
#[test]
fn scenario_step_shaper() {
    let mut mgr = TypeAnimationContextMgr::default();
    let mut context = new_context();
    let target = mgr.allocat_target_id();
    let curve = Curve::easing(0.0, 1.0, 60, 60);
    let animation = mgr.f32_ctx.create_animation(0, curve.info(), curve);
    let group = context.create_animation_group();
    context.add_target_animation_notype(animation, group, target).unwrap();
    assert!(context.group_mgr.get_mut(group).is_some());
    context
        .group_mgr
        .get_mut(group)
        .unwrap()
        .amount_calc(AnimationAmountCalc::from_steps(5, EStepMode::JumpNone));
    context
        .start_with_progress(
            group,
            FIXED_ONE,
            ELoopMode::Not,
            0,
            FIXED_ONE,
            60,
            AnimationAmountCalc::default(),
            0,
            EFillMode::NONE,
        )
        .unwrap();

    let mut trace: Vec<Fixed> = vec![];
    let mut ended_at = None;
    for tick in 0..12 {
        mgr.anime(&mut context, 100).unwrap();
        if events_of(&context, EAnimationEvent::End) == 1 {
            ended_at = Some(tick);
        }
        if ended_at.is_none() || ended_at == Some(tick) {
            trace.push(context.group_infos.get(group).unwrap().amount_in_second);
        }
    }
    // The pass counts as 991.666667 ms; tick k samples at k * 100 ms.
    assert_eq!(
        trace,
        vec![
            0, 0, 250_000, 250_000, 500_000, 500_000, 750_000, 750_000, 1_000_000, 1_000_000,
            1_000_000
        ]
    );
    assert_eq!(ended_at, Some(10));
}

/// The same staircase ticked every 200 ms.
#[test]
fn step_shaper_with_wide_ticks() {
    let mut mgr = TypeAnimationContextMgr::default();
    let mut context = new_context();
    let target = mgr.allocat_target_id();
    let curve = Curve::easing(0.0, 1.0, 60, 60);
    let animation = mgr.f32_ctx.create_animation(0, curve.info(), curve);
    let group = context.create_animation_group();
    context.add_target_animation_notype(animation, group, target).unwrap();
    context
        .group_mgr
        .get_mut(group)
        .unwrap()
        .amount_calc(AnimationAmountCalc::from_steps(5, EStepMode::JumpNone));
    context
        .start(
            group,
            FIXED_ONE,
            ELoopMode::Not,
            0,
            frames(60),
            60,
            AnimationAmountCalc::default(),
            0,
            EFillMode::NONE,
        )
        .unwrap();
    let mut trace: Vec<Fixed> = vec![];
    for _ in 0..6 {
        mgr.anime(&mut context, 200).unwrap();
        trace.push(context.group_infos.get(group).unwrap().amount_in_second);
    }
    assert_eq!(trace, vec![0, 250_000, 500_000, 750_000, 1_000_000, 1_000_000]);
    assert_eq!(context.group_events, vec![(group, EAnimationEvent::End, 1)]);
}

/// Two payloads on frames 10 and 50 of 60; the sampling position goes from
/// 0.1 to 0.9.
#[test]
fn scenario_frame_event_query() {
    let mut schedule = CurveFrameEvent::<char>::new(frames(60));
    schedule.add(10, 'A');
    schedule.add(50, 'B');
    assert_eq!(schedule.query(100_000, 900_000), Some(vec!['A', 'B']));
}

/// Every animation of a group gets one result per tick that is let through.
#[test]
fn one_result_per_target() {
    let mut mgr = TypeAnimationContextMgr::default();
    let mut context = new_context();
    let group = context.create_animation_group();
    let mut targets = vec![];
    for _ in 0..3 {
        let target = mgr.allocat_target_id();
        let curve = Curve::easing(0.0, 8.0, 60, 60);
        context
            .add_target_animation(&mut mgr.f32_ctx, curve.info(), curve, group, target)
            .unwrap();
        targets.push(target);
    }
    context
        .start_with_progress(
            group,
            FIXED_ONE,
            ELoopMode::Not,
            0,
            FIXED_ONE,
            60,
            AnimationAmountCalc::default(),
            0,
            EFillMode::NONE,
        )
        .unwrap();
    let once_time_ms = 1000;
    mgr.anime(&mut context, once_time_ms).unwrap();
    let mut total = 0;
    for target in targets.iter() {
        let results: Vec<AnimeResult<f32>> = mgr.f32_result_pool.query_result(*target);
        assert_eq!(results.len(), 1);
        assert_eq!(results[0].attr, 0);
        total += results.len();
    }
    assert_eq!(total, 3);
    mgr.anime(&mut context, once_time_ms).unwrap();
    assert_eq!(context.group_events, vec![(group, EAnimationEvent::End, 1)]);
    for target in targets.iter() {
        let results = mgr.f32_result_pool.query_result(*target);
        assert_eq!(results.len(), 1);
        assert_eq!(results[0].value, 8.0);
    }
}
