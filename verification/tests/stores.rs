use pi_animation::amount::AnimationAmountCalc;
use pi_animation::animation::AnimationInfo;
use pi_animation::animation_group::{AnimationGroupID, AnimationGroupRuntimeInfo};
use pi_animation::animation_group_manager::{
    to_group_id, AnimationGroupManager, AnimationGroupManagerDefault, GroupInfoTable,
};
use pi_animation::animation_listener::{
    AnimationListener, EAnimationEventResult, ListenResult,
};
use pi_animation::animation_result_pool::{
    AnimeResult, TypeAnimationResultPool, TypeAnimationResultPoolDefault,
};
use pi_animation::base::FIXED_ONE;
use pi_animation::curve_frame_event::CurveFrameEvent;
use pi_animation::error::EAnimationError;
use pi_animation::frame_curve_manager::{
    FrameCurveInfo, FrameCurveInfoManager, FrameCurvePool, TFrameCurveInfoManager,
    TFrameCurvePool, TTypeFrameCurveInfoManager, TypeFrameCurveInfoManager,
};
use pi_animation::runtime_info::{RuntimeInfo, RuntimeInfoMap};
use pi_animation::target_animation::TargetAnimation;
use pi_animation::target_modifier::{
    IDAnimatableTargetAllocator, IDAnimatableTargetAllocatorDefault,
};
use std::cell::RefCell;
use std::rc::Rc;

fn info(curve_id: usize) -> RuntimeInfo {
    RuntimeInfo {
        group_weight: FIXED_ONE,
        amount_in_second: 10,
        attr: 1,
        curve_id,
        amount_calc: AnimationAmountCalc::default(),
    }
}

fn record(amount: u64) -> AnimationGroupRuntimeInfo {
    AnimationGroupRuntimeInfo { amount_in_second: amount, ..AnimationGroupRuntimeInfo::idle() }
}

#[test]
fn staging_area_registers_types_lazily() {
    let mut map = RuntimeInfoMap::default();
    assert!(map.get_type_list(0).is_none());
    assert_eq!(map.insert(0, 1, info(0)), Err(EAnimationError::RuntimeInfoMapNotFindType));
    map.add_type(2);
    for ty in 0..3 {
        assert!(map.get_type_list(ty).unwrap().targets().is_empty());
    }
    assert!(map.get_type_list(3).is_none());
    assert_eq!(map.insert(3, 1, info(0)), Err(EAnimationError::RuntimeInfoMapNotFindType));
    assert_eq!(map.insert(1, 8, info(5)), Ok(()));
    map.add_type(1);
    map.add_type(0);
    assert!(map.get_type_list(3).is_none());
    assert_eq!(map.get_type_list(1).unwrap().get(8).unwrap().len(), 1);
}

#[test]
fn staging_area_keeps_the_order_of_arrival() {
    let mut map = RuntimeInfoMap::default();
    map.add_type(1);
    for (target, curve) in [(9, 0), (3, 1), (9, 2), (7, 3), (3, 4), (9, 5)] {
        assert_eq!(map.insert(1, target, info(curve)), Ok(()));
    }
    assert_eq!(map.insert(0, 9, info(6)), Ok(()));
    let staged = map.get_type_list(1).unwrap();
    assert_eq!(staged.targets().as_slice(), &[9, 3, 7]);
    let curves = |target: usize| -> Vec<usize> {
        staged.get(target).unwrap().iter().map(|info| info.curve_id).collect()
    };
    assert_eq!(curves(9), vec![0, 2, 5]);
    assert_eq!(curves(3), vec![1, 4]);
    assert_eq!(curves(7), vec![3]);
    assert!(staged.get(1).is_none());
    assert_eq!(map.get_type_list(0).unwrap().targets().as_slice(), &[9]);

    map.reset();
    for ty in 0..2 {
        let staged = map.get_type_list(ty).unwrap();
        assert!(staged.targets().is_empty());
        assert!(staged.get(9).is_none());
    }
    assert!(map.get_type_list(2).is_none());
    assert_eq!(map.insert(1, 3, info(8)), Ok(()));
    assert_eq!(map.get_type_list(1).unwrap().targets().as_slice(), &[3]);
}

#[test]
fn group_store_hands_out_fresh_keys() {
    let mut store = AnimationGroupManagerDefault::default();
    let first = store.create();
    let second = store.try_create().unwrap();
    assert_ne!(first, second);
    assert!(!first.is_null() && !second.is_null());
    assert_eq!(store.get(first).unwrap().get_state().id, first);
    assert_eq!(store.get(second).unwrap().get_state().id, second);
    assert!(store.get(AnimationGroupID::null()).is_none());
    assert!(store.get(to_group_id(first.index, first.version + 2)).is_none());

    let animation = AnimationInfo {
        attr: 2,
        ty: 0,
        curve_info: FrameCurveInfo::new(30, 0, 60),
        curve_id: 4,
    };
    store
        .get_mut(first)
        .unwrap()
        .add_target_animation(TargetAnimation { target: 11, animation })
        .unwrap();
    assert_eq!(store.get(first).unwrap().animations().len(), 1);
    assert!(store.get(second).unwrap().animations().is_empty());

    assert_eq!(store.del(first), vec![animation]);
    assert!(store.get(first).is_none());
    assert!(store.get_mut(first).is_none());
    assert_eq!(store.del(first), vec![]);
    assert!(store.get(second).is_some());

    let third = store.create();
    assert_ne!(third, first);
    assert_eq!(third.index, first.index);
    assert!(store.get(first).is_none());
    assert_eq!(store.get(third).unwrap().get_state().id, third);
    assert!(store.get(third).unwrap().animations().is_empty());
}

#[test]
fn info_table_follows_the_slots() {
    let mut table = GroupInfoTable::new();
    let a = to_group_id(1, 1);
    let b = to_group_id(2, 1);
    assert!(table.keys().is_empty());
    assert_eq!(table.get(a), None);
    assert!(!table.set(a, record(1)));
    assert_eq!(table.insert(b, record(20)), None);
    assert_eq!(table.insert(a, record(10)), None);
    assert_eq!(table.keys(), vec![a, b]);
    assert_eq!(table.insert(a, record(11)), Some(record(10)));
    assert_eq!(table.get(a), Some(record(11)));
    assert!(table.set(b, record(21)));
    assert_eq!(table.get(b), Some(record(21)));
    assert_eq!(table.keys(), vec![a, b]);

    // The null key is refused.
    assert_eq!(table.insert(AnimationGroupID::null(), record(0)), None);
    assert_eq!(table.get(AnimationGroupID::null()), None);
    assert_eq!(table.keys(), vec![a, b]);

    // A newer key of a slot puts the older one out.
    let newer = to_group_id(1, 3);
    assert_eq!(table.insert(newer, record(30)), None);
    assert_eq!(table.get(a), None);
    assert_eq!(table.get(newer), Some(record(30)));
    assert_eq!(table.keys(), vec![newer, b]);

    // An older key of a slot is turned away.
    assert_eq!(table.insert(a, record(12)), None);
    assert_eq!(table.get(a), None);
    assert_eq!(table.get(newer), Some(record(30)));
    assert_eq!(table.keys(), vec![newer, b]);
}

#[test]
fn result_pool_records_per_target() {
    let mut pool: TypeAnimationResultPoolDefault<i32> = TypeAnimationResultPoolDefault::default();
    let result = |value: i32| AnimeResult { value, attr: 3, weight: FIXED_ONE };
    assert_eq!(
        pool.record_result(5, 3, result(1)),
        Err(EAnimationError::TargetIDNotRecordForTypeAnimationContext)
    );
    assert!(pool.try_query_result(5).is_none());
    pool.record_target(5);
    pool.record_target(6);
    assert_eq!(pool.record_result(5, 3, result(1)), Ok(()));
    assert_eq!(pool.record_result(6, 3, result(2)), Ok(()));
    assert_eq!(pool.record_result(5, 3, result(3)), Ok(()));
    pool.record_target(5);
    let values = |results: Vec<AnimeResult<i32>>| -> Vec<i32> {
        results.into_iter().map(|result| result.value).collect()
    };
    assert_eq!(values(pool.query_result(5)), vec![1, 3]);
    assert_eq!(values(pool.query_result(5)), vec![]);
    assert_eq!(values(pool.try_query_result(6).unwrap()), vec![2]);
    assert_eq!(pool.record_result(6, 3, result(4)), Ok(()));
    assert_eq!(pool.record_result(5, 3, result(5)), Ok(()));
    pool.reset();
    assert_eq!(values(pool.query_result(5)), vec![]);
    assert_eq!(values(pool.query_result(6)), vec![]);
    assert_eq!(pool.record_result(6, 3, result(6)), Ok(()));
    assert_eq!(values(pool.query_result(6)), vec![6]);
    assert_eq!(
        pool.record_result(7, 3, result(7)),
        Err(EAnimationError::TargetIDNotRecordForTypeAnimationContext)
    );
}

#[test]
fn target_allocator_reuses_what_was_handed_back() {
    let mut allocator = IDAnimatableTargetAllocatorDefault::default();
    assert_eq!(allocator.allocat(), Ok(0));
    assert_eq!(allocator.allocat(), Ok(1));
    assert_eq!(allocator.allocat(), Ok(2));
    allocator.collect(0);
    allocator.collect(2);
    assert_eq!(allocator.allocat(), Ok(2));
    assert_eq!(allocator.allocat(), Ok(0));
    assert_eq!(allocator.allocat(), Ok(3));
}

#[test]
fn description_manager_of_one_type() {
    let mut manager = TypeFrameCurveInfoManager::default();
    let a = FrameCurveInfo::new(10, 0, 30);
    let b = FrameCurveInfo::new(20, 5, 60);
    let c = FrameCurveInfo::new(30, 0, 24);
    assert_eq!(manager.get(0), Err(EAnimationError::FrameCurveNotFound));
    assert_eq!(manager.remove(0), Err(EAnimationError::FrameCurveNotFound));
    assert_eq!(manager.insert(a), 0);
    assert_eq!(manager.insert(b), 1);
    assert_eq!(manager.get(0), Ok(a));
    assert_eq!(manager.get(1), Ok(b));
    assert_eq!(manager.remove(0), Ok(()));
    assert_eq!(manager.remove(0), Ok(()));
    assert_eq!(manager.remove(2), Err(EAnimationError::FrameCurveNotFound));
    assert_eq!(manager.insert(c), 0);
    assert_eq!(manager.get(0), Ok(c));
    assert_eq!(manager.insert(a), 2);
    assert_eq!(manager.remove(1), Ok(()));
    assert_eq!(manager.remove(2), Ok(()));
    assert_eq!(manager.insert(b), 2);
    assert_eq!(manager.insert(b), 1);
    assert_eq!(manager.insert(b), 3);
}

#[test]
fn description_manager_of_all_types() {
    let mut manager = FrameCurveInfoManager::default();
    let a = FrameCurveInfo::new(10, 0, 30);
    let b = FrameCurveInfo::new(20, 5, 60);
    assert_eq!(manager.get(0, 0), Err(EAnimationError::FrameCurveNotFound));
    assert_eq!(manager.remove(0, 0), Ok(()));
    assert_eq!(manager.add_type(1), Ok(()));
    assert_eq!(manager.add_type(0), Ok(()));
    assert_eq!(manager.insert(1, a), 0);
    assert_eq!(manager.insert(0, b), 0);
    assert_eq!(manager.insert(1, b), 1);
    assert_eq!(manager.get(1, 0), Ok(a));
    assert_eq!(manager.get(1, 1), Ok(b));
    assert_eq!(manager.get(0, 0), Ok(b));
    assert_eq!(manager.get(0, 1), Err(EAnimationError::FrameCurveNotFound));
    assert_eq!(manager.get(2, 0), Err(EAnimationError::FrameCurveNotFound));
    assert_eq!(manager.remove(1, 5), Err(EAnimationError::FrameCurveNotFound));
    assert_eq!(manager.remove(1, 0), Ok(()));
    assert_eq!(manager.remove(2, 0), Ok(()));
    assert_eq!(manager.insert(1, b), 0);
    assert_eq!(manager.get(1, 0), Ok(b));
}

#[test]
fn curve_pool() {
    let mut pool: FrameCurvePool<&'static str> = FrameCurvePool::default();
    assert_eq!(pool.get(0), Err(EAnimationError::FrameCurveNotFound));
    assert_eq!(pool.remove(0), Err(EAnimationError::FrameCurveNotFound));
    pool.insert(4, "four");
    pool.insert(2, "two");
    pool.insert(9, "nine");
    pool.insert(2, "two again");
    assert_eq!(pool.get(2), Ok(&"two"));
    assert_eq!(pool.get(9), Ok(&"nine"));
    assert_eq!(pool.remove(4), Ok(()));
    assert_eq!(pool.get(4), Err(EAnimationError::FrameCurveNotFound));
    // The last curve took the place of the removed one.
    assert_eq!(pool.get(2), Ok(&"two again"));
    assert_eq!(pool.remove(2), Ok(()));
    assert_eq!(pool.get(2), Ok(&"two"));
    assert_eq!(pool.remove(2), Ok(()));
    assert_eq!(pool.remove(2), Err(EAnimationError::FrameCurveNotFound));
    assert_eq!(pool.get(9), Ok(&"nine"));
}

#[test]
fn frame_events_keep_their_order() {
    let mut schedule = CurveFrameEvent::<&'static str>::new(60 * FIXED_ONE);
    assert_eq!(schedule.query(0, FIXED_ONE), None);
    schedule.add(50, "fifty");
    schedule.add(10, "ten");
    schedule.add(30, "thirty");
    schedule.add(10, "ten again");
    schedule.add(30, "thirty again");
    schedule.add(10, "ten once more");
    assert_eq!(
        schedule.query(0, FIXED_ONE),
        Some(vec!["ten", "ten again", "ten once more", "thirty", "thirty again", "fifty"])
    );
    // Frame 10 lies at 1/6: the frame of the earlier position counts, the frame of the later not.
    assert_eq!(schedule.query(166_667, 500_000), Some(vec!["ten", "ten again", "ten once more"]));
    assert_eq!(schedule.query(0, 166_667), None);
    assert_eq!(schedule.query(0, 183_334), Some(vec!["ten", "ten again", "ten once more"]));
    assert_eq!(schedule.query(183_334, 500_000), None);
    assert_eq!(schedule.query(183_334, 516_667), Some(vec!["thirty", "thirty again"]));
    assert_eq!(schedule.query(500_000, 500_000), None);
    assert_eq!(schedule.query(900_000, 100_000), None);
    assert_eq!(schedule.query(0, u64::MAX), Some(vec![
        "ten",
        "ten again",
        "ten once more",
        "thirty",
        "thirty again",
        "fifty"
    ]));
}

type Callback = Box<dyn Fn() -> ListenResult>;
type LoopCallback = Box<dyn Fn(u32) -> ListenResult>;
type FrameCallback = Box<dyn Fn(Vec<u8>) -> ListenResult>;

#[test]
fn listener_calls_in_order_and_drops_on_request() {
    let log: Rc<RefCell<Vec<String>>> = Rc::new(RefCell::new(vec![]));
    let call = |name: &'static str, outcome: ListenResult| -> Callback {
        let log = log.clone();
        Box::new(move || {
            log.borrow_mut().push(name.to_string());
            outcome
        })
    };
    let mut listener: AnimationListener<Callback, Callback, LoopCallback, FrameCallback> =
        AnimationListener::new(to_group_id(1, 1));
    assert_eq!(listener.group, to_group_id(1, 1));
    listener.on_start.push(call("a", Ok(EAnimationEventResult::Stay)));
    listener.on_start.push(call("b", Ok(EAnimationEventResult::RemoveListen)));
    listener.on_start.push(call("c", Err(EAnimationError::NotFoundAttr)));
    listener.on_start.push(call("d", Ok(EAnimationEventResult::Stay)));
    listener.on_end.push(call("e", Ok(EAnimationEventResult::Stay)));
    listener.on_end.push(call("f", Ok(EAnimationEventResult::RemoveListen)));
    let loops = log.clone();
    listener.on_loop.push(Box::new(move |count| {
        loops.borrow_mut().push(format!("loop {}", count));
        if count < 2 {
            Ok(EAnimationEventResult::Stay)
        } else {
            Ok(EAnimationEventResult::RemoveListen)
        }
    }));
    let frames = log.clone();
    listener.on_frame_event.push(Box::new(move |mut datas| {
        frames.borrow_mut().push(format!("frames {:?}", datas));
        datas.clear();
        Ok(EAnimationEventResult::Stay)
    }));
    let frames = log.clone();
    listener.on_frame_event.push(Box::new(move |datas| {
        frames.borrow_mut().push(format!("again {:?}", datas));
        Err(EAnimationError::NotFoundAttr)
    }));

    listener.on_start();
    assert_eq!(*log.borrow(), vec!["a", "b", "c", "d"]);
    assert_eq!(listener.on_start.len(), 2);
    assert_eq!(listener.on_end.len(), 2);
    log.borrow_mut().clear();
    listener.on_start();
    assert_eq!(*log.borrow(), vec!["a", "d"]);
    log.borrow_mut().clear();

    listener.on_end();
    listener.on_end();
    assert_eq!(*log.borrow(), vec!["e", "f", "e"]);
    assert_eq!(listener.on_end.len(), 1);
    log.borrow_mut().clear();

    listener.on_loop(1);
    listener.on_loop(2);
    listener.on_loop(3);
    assert_eq!(*log.borrow(), vec!["loop 1", "loop 2"]);
    assert!(listener.on_loop.is_empty());
    log.borrow_mut().clear();

    listener.on_frame(vec![7, 8]);
    listener.on_frame(vec![9]);
    assert_eq!(*log.borrow(), vec!["frames [7, 8]", "again [7, 8]", "frames [9]"]);
    assert_eq!(listener.on_frame_event.len(), 1);
    assert_eq!(listener.on_start.len(), 2);
}

/// The pool keeps its targets as a slot map keeps its keys: the low 32 bits
/// of a target are its slot, the bits above its generation.
#[test]
fn result_pool_has_one_generation_per_slot() {
    let mut pool: TypeAnimationResultPoolDefault<i32> = TypeAnimationResultPoolDefault::default();
    let result = |value: i32| AnimeResult { value, attr: 0, weight: FIXED_ONE };
    let values = |results: Vec<AnimeResult<i32>>| -> Vec<i32> {
        results.into_iter().map(|result| result.value).collect()
    };
    let old_key: usize = (1 << 32) | 5;
    let new_key: usize = (3 << 32) | 5;
    let neighbour: usize = (1 << 32) | 6;
    pool.record_target(old_key);
    pool.record_target(neighbour);
    assert_eq!(pool.record_result(old_key, 0, result(1)), Ok(()));
    assert_eq!(pool.record_result(neighbour, 0, result(2)), Ok(()));
    assert_eq!(
        pool.record_result(new_key, 0, result(3)),
        Err(EAnimationError::TargetIDNotRecordForTypeAnimationContext)
    );

    // The newer generation puts the older one out of the slot.
    pool.record_target(new_key);
    assert!(pool.try_query_result(old_key).is_none());
    assert_eq!(values(pool.query_result(new_key)), vec![]);
    assert_eq!(pool.record_result(new_key, 0, result(4)), Ok(()));
    assert_eq!(values(pool.query_result(neighbour)), vec![2]);

    // The older generation is turned away, and so is the null key.
    pool.record_target(old_key);
    assert!(pool.try_query_result(old_key).is_none());
    pool.record_target(usize::MAX);
    assert!(pool.try_query_result(usize::MAX).is_none());
    assert_eq!(values(pool.query_result(new_key)), vec![4]);
    pool.reset();
    assert_eq!(values(pool.query_result(new_key)), vec![]);
}
