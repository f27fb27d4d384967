use vstd::prelude::*;
use crate::amount::AnimationAmountCalc;
use crate::animation::AnimationInfo;
use crate::animation_group::{
    lemma_stage_one_per_target, spec_one_per_target, spec_stage, AnimationGroup, AnimationGroupID, AnimationGroupRuntimeInfo, GroupState,
    GroupView, StartOptions, BASE_FPS,
};
use crate::animation_group_manager::{
    spec_by_slot, spec_offered, AnimationGroupManager, GroupInfoTable,
};
use crate::animation_listener::{
    spec_notified, spec_notified_frames, spec_notified_loop, AnimationListener, EAnimationEvent,
    ListenResult,
};
use crate::animation_result_pool::{AnimeResult, TypeAnimationResultPool};
use crate::base::{
    mul_div, scaled, EFillMode, Fixed, FramePerSecond, KeyFrameDataType, TimeMS,
};
use crate::curve_frame_event::CurveFrameEvent;
use crate::error::EAnimationError;
use crate::frame_curve_manager::{FrameCurveInfo, FrameCurveInfoID};
use crate::loop_mode::ELoopMode;
use crate::runtime_info::{
    spec_add_type, spec_staged_wf, RuntimeInfo, RuntimeInfoMap, StagedInfos,
};
use crate::target_animation::TargetAnimation;
use crate::target_modifier::{IDAnimatableAttr, IDAnimatableTarget, TAnimatableTargetModifier};

verus! {

/// The curves of one value type, each in a slot, and the slots that are
/// free to be used again, the one freed last first.
pub struct CurveSlots<D> {
    pub ty: KeyFrameDataType,
    pub curves: Seq<Option<D>>,
    pub free: Seq<FrameCurveInfoID>,
}

impl<D> CurveSlots<D> {
    /// Every free slot exists.
    pub open spec fn wf(self) -> bool {
        forall|i: int| 0 <= i < self.free.len() ==> (#[trigger] self.free[i]) < self.curves.len()
    }

    /// Whether a slot holds a curve.
    pub open spec fn has_curve(self, slot: FrameCurveInfoID) -> bool {
        slot < self.curves.len() && self.curves[slot as int] is Some
    }

    /// The slot that the next curve goes to: the slot freed last, or a new
    /// one behind the others.
    pub open spec fn next_slot(self) -> FrameCurveInfoID {
        if self.free.len() > 0 {
            self.free.last()
        } else {
            self.curves.len() as usize
        }
    }

    /// The slots after a curve has gone to the next slot.
    pub open spec fn create(self, curve: D) -> CurveSlots<D> {
        if self.free.len() > 0 {
            CurveSlots {
                ty: self.ty,
                curves: self.curves.update(self.free.last() as int, Some(curve)),
                free: self.free.drop_last(),
            }
        } else {
            CurveSlots { ty: self.ty, curves: self.curves.push(Some(curve)), free: self.free }
        }
    }

    /// Whether an animation names a slot of these curves.
    pub open spec fn owns(self, animation: AnimationInfo) -> bool {
        animation.ty == self.ty && animation.curve_id < self.curves.len()
    }

    /// The slots after the curve of an animation has been removed: the slot
    /// is empty and is the first to be used again. An animation of another
    /// value type, or of a slot that does not exist, changes nothing.
    pub open spec fn remove_one(self, animation: AnimationInfo) -> CurveSlots<D> {
        if self.owns(animation) {
            CurveSlots {
                ty: self.ty,
                curves: self.curves.update(animation.curve_id as int, None),
                free: self.free.push(animation.curve_id),
            }
        } else {
            self
        }
    }

    /// The slots after the curves of the first `count` of the animations have
    /// been removed, one after the other.
    pub open spec fn remove_first(self, animations: Seq<AnimationInfo>, count: nat) -> CurveSlots<D>
        decreases count,
    {
        if count == 0 {
            self
        } else {
            self.remove_first(animations, (count - 1) as nat).remove_one(animations[count - 1])
        }
    }

    /// The slots after the curves of all the animations have been removed.
    pub open spec fn remove_all(self, animations: Seq<AnimationInfo>) -> CurveSlots<D> {
        self.remove_first(animations, animations.len())
    }

    /// Removing keeps the slots well formed, and neither adds nor drops a
    /// slot.
    pub proof fn lemma_remove_first(self, animations: Seq<AnimationInfo>, count: nat)
        requires
            self.wf(),
            count <= animations.len(),
        ensures
            self.remove_first(animations, count).wf(),
            self.remove_first(animations, count).ty == self.ty,
            self.remove_first(animations, count).curves.len() == self.curves.len(),
        decreases count,
    {
        if count > 0 {
            self.lemma_remove_first(animations, (count - 1) as nat);
        }
    }

    /// After a removal, the slot of every removed animation of this value
    /// type is empty and waits to be used again; the other slots are as they
    /// were.
    pub proof fn lemma_removed_slots_are_free(self, animations: Seq<AnimationInfo>, count: nat)
        requires
            self.wf(),
            count <= animations.len(),
        ensures
            forall|k: int|
                0 <= k < count && self.owns(#[trigger] animations[k]) ==> {
                    &&& self.remove_first(animations, count).curves[animations[k].curve_id as int]
                        is None
                    &&& self.remove_first(animations, count).free.contains(animations[k].curve_id)
                },
            forall|slot: int|
                0 <= slot < self.curves.len() && (forall|k: int|
                    0 <= k < count && self.owns(#[trigger] animations[k]) ==> animations[k].curve_id
                        != slot) ==> self.remove_first(animations, count).curves[slot]
                    == self.curves[slot],
        decreases count,
    {
        if count > 0 {
            let before = self.remove_first(animations, (count - 1) as nat);
            let after = self.remove_first(animations, count);
            self.lemma_remove_first(animations, (count - 1) as nat);
            self.lemma_removed_slots_are_free(animations, (count - 1) as nat);
            assert forall|k: int| 0 <= k < count && self.owns(#[trigger] animations[k]) implies {
                &&& after.curves[animations[k].curve_id as int] is None
                &&& after.free.contains(animations[k].curve_id)
            } by {
                if k < count - 1 {
                    let slot = animations[k].curve_id;
                    let i = choose|i: int| 0 <= i < before.free.len() && before.free[i] == slot;
                    assert(after.free[i] == slot);
                } else {
                    assert(after.free[before.free.len() as int] == animations[k].curve_id);
                }
            }
        }
    }

    /// Removing the same animations a second time leaves every curve as the
    /// first removal left it.
    pub proof fn lemma_remove_twice_same_curves(self, animations: Seq<AnimationInfo>, count: nat)
        requires
            self.wf(),
            count <= animations.len(),
        ensures
            self.remove_all(animations).remove_first(animations, count).curves == self.remove_all(
                animations,
            ).curves,
        decreases count,
    {
        let once = self.remove_all(animations);
        self.lemma_remove_first(animations, animations.len());
        if count > 0 {
            self.lemma_remove_twice_same_curves(animations, (count - 1) as nat);
            once.lemma_remove_first(animations, (count - 1) as nat);
            self.lemma_removed_slots_are_free(animations, animations.len());
            let before = once.remove_first(animations, (count - 1) as nat);
            let one = animations[count - 1];
            if before.owns(one) {
                assert(self.owns(one));
                assert(once.curves[one.curve_id as int] is None);
                assert(before.remove_one(one).curves =~= before.curves);
            }
        }
    }

    /// Removing animations none of which names a slot of these curves
    /// changes nothing.
    pub proof fn lemma_remove_foreign(self, animations: Seq<AnimationInfo>, count: nat)
        requires
            count <= animations.len(),
            forall|k: int| 0 <= k < animations.len() ==> !self.owns(#[trigger] animations[k]),
        ensures
            self.remove_first(animations, count) == self,
        decreases count,
    {
        if count > 0 {
            self.lemma_remove_foreign(animations, (count - 1) as nat);
        }
    }
}

/// Whether `produced` are the results of the evaluations `infos`, in their
/// order: one result for each evaluation whose curve exists, with the
/// attribute and the weight of the evaluation and with a value that the
/// interpolation can return for the curve, the sampling position and the
/// shaper of the evaluation.
pub open spec fn spec_produced<D, F, I: Fn(&D, Fixed, &AnimationAmountCalc) -> F>(
    slots: CurveSlots<D>,
    interp: I,
    infos: Seq<RuntimeInfo>,
    produced: Seq<AnimeResult<F>>,
) -> bool
    decreases infos.len(),
{
    if infos.len() == 0 {
        produced.len() == 0
    } else if slots.has_curve(infos.last().curve_id) {
        &&& produced.len() > 0
        &&& produced.last().attr == infos.last().attr
        &&& produced.last().weight == infos.last().group_weight
        &&& call_ensures(
            interp,
            (
                &slots.curves[infos.last().curve_id as int]->0,
                infos.last().amount_in_second,
                &infos.last().amount_calc,
            ),
            produced.last().value,
        )
        &&& spec_produced(slots, interp, infos.drop_last(), produced.drop_last())
    } else {
        spec_produced(slots, interp, infos.drop_last(), produced)
    }
}

/// Whether the list `after` of a target is its list `before` with the
/// results of the evaluations `infos` behind it.
pub open spec fn spec_recorded<D, F, I: Fn(&D, Fixed, &AnimationAmountCalc) -> F>(
    slots: CurveSlots<D>,
    interp: I,
    infos: Seq<RuntimeInfo>,
    before: Seq<AnimeResult<F>>,
    after: Seq<AnimeResult<F>>,
) -> bool {
    &&& before.len() <= after.len()
    &&& after.subrange(0, before.len() as int) == before
    &&& spec_produced(slots, interp, infos, after.subrange(before.len() as int, after.len() as int))
}

/// Whether a target is among the first `count` of the targets.
pub open spec fn spec_among_first(
    targets: Seq<IDAnimatableTarget>,
    count: int,
    target: IDAnimatableTarget,
) -> bool {
    exists|k: int| 0 <= k < count && k < targets.len() && targets[k] == target
}

/// Whether a list is as it was.
pub open spec fn spec_untouched<F>(before: Seq<AnimeResult<F>>, after: Seq<AnimeResult<F>>) -> bool {
    after == before
}

/// The failures of the evaluations `infos` of a target, in their order: an
/// evaluation fails if its curve does not exist, or if the target was never
/// recorded with the pool.
pub open spec fn spec_target_errors<D>(
    slots: CurveSlots<D>,
    recorded: bool,
    infos: Seq<RuntimeInfo>,
) -> Seq<EAnimationError>
    decreases infos.len(),
{
    if infos.len() == 0 {
        Seq::empty()
    } else if !slots.has_curve(infos.last().curve_id) {
        spec_target_errors(slots, recorded, infos.drop_last()).push(
            EAnimationError::FrameCurveNotFound,
        )
    } else if !recorded {
        spec_target_errors(slots, recorded, infos.drop_last()).push(
            EAnimationError::TargetIDNotRecordForTypeAnimationContext,
        )
    } else {
        spec_target_errors(slots, recorded, infos.drop_last())
    }
}

/// The failures of the evaluations of the first `count` staged targets, in
/// the order of the targets.
pub open spec fn spec_errors_first<D>(
    slots: CurveSlots<D>,
    recorded: Set<IDAnimatableTarget>,
    staged: StagedInfos,
    count: nat,
) -> Seq<EAnimationError>
    decreases count,
{
    if count == 0 {
        Seq::empty()
    } else {
        spec_errors_first(slots, recorded, staged, (count - 1) as nat) + spec_target_errors(
            slots,
            recorded.contains(staged.targets[count - 1]),
            staged.of(staged.targets[count - 1]),
        )
    }
}

/// The failures of all staged evaluations of a value type.
pub open spec fn spec_errors<D>(
    slots: CurveSlots<D>,
    recorded: Set<IDAnimatableTarget>,
    staged: StagedInfos,
) -> Seq<EAnimationError> {
    spec_errors_first(slots, recorded, staged, staged.targets.len())
}

/// Where nothing is staged nothing fails, and a list with the results of
/// no evaluation behind it is the list itself.
pub proof fn lemma_nothing_staged<D, F, I: Fn(&D, Fixed, &AnimationAmountCalc) -> F>(
    slots: CurveSlots<D>,
    interp: I,
    recorded: Set<IDAnimatableTarget>,
    target: IDAnimatableTarget,
    before: Seq<AnimeResult<F>>,
    after: Seq<AnimeResult<F>>,
)
    ensures
        spec_errors(slots, recorded, StagedInfos::empty()).len() == 0,
        StagedInfos::empty().of(target).len() == 0,
        spec_recorded(slots, interp, StagedInfos::empty().of(target), before, after) ==> after
            == before,
{
    if spec_recorded(slots, interp, StagedInfos::empty().of(target), before, after) {
        assert(after.subrange(before.len() as int, after.len() as int).len() == 0);
        assert(after =~= before);
    }
}

/// The context of one value type: it owns the curves of that type and
/// evaluates what the groups stage for them.
pub struct TypeAnimationContext<D> {
    ty: KeyFrameDataType,
    curves: Vec<Option<D>>,
    id_pool: Vec<FrameCurveInfoID>,
}

impl<D> View for TypeAnimationContext<D> {
    type V = CurveSlots<D>;

    closed spec fn view(&self) -> CurveSlots<D> {
        CurveSlots { ty: self.ty, curves: self.curves@, free: self.id_pool@ }
    }
}

impl<D> TypeAnimationContext<D> {
    /// Every free slot exists.
    pub open spec fn wf(&self) -> bool {
        self@.wf()
    }

    /// A context without curves for the value type `ty`, which it registers
    /// with the staging area.
    pub fn new(ty: KeyFrameDataType, runtime_info_map: &mut RuntimeInfoMap) -> (r:
        TypeAnimationContext<D>)
        requires
            old(runtime_info_map).wf(),
        ensures
            final(runtime_info_map).wf(),
            final(runtime_info_map)@ == spec_add_type(old(runtime_info_map)@, ty),
            r@ == (CurveSlots::<D> { ty, curves: Seq::empty(), free: Seq::empty() }),
            r.wf(),
    {
        runtime_info_map.add_type(ty);
        TypeAnimationContext { ty, curves: Vec::new(), id_pool: Vec::new() }
    }

    /// The curves, by slot.
    pub fn curves(&self) -> (r: &Vec<Option<D>>)
        ensures
            r@ == self@.curves,
    {
        &self.curves
    }

    /// Takes a curve into the next slot and returns the animation that
    /// drives `attr` with it.
    pub fn create_animation(
        &mut self,
        attr: IDAnimatableAttr,
        curve_info: FrameCurveInfo,
        curve: D,
    ) -> (r: AnimationInfo)
        requires
            old(self).wf(),
        ensures
            final(self).wf(),
            final(self)@ == old(self)@.create(curve),
            r == (AnimationInfo {
                attr,
                ty: old(self)@.ty,
                curve_info,
                curve_id: old(self)@.next_slot(),
            }),
    {
        let (result, index): (AnimationInfo, usize) = _create_animation(
            self.ty,
            &mut self.id_pool,
            curve_info,
            attr,
            self.curves.len(),
        );
        if index == self.curves.len() {
            self.curves.push(Some(curve));
        } else {
            self.curves[index] = Some(curve);
        }
        result
    }

    pub fn ty(&self) -> (r: KeyFrameDataType)
        ensures
            r == self@.ty,
    {
        self.ty
    }

    /// Removes the curve of an animation.
    pub fn remove_one(&mut self, animation: &AnimationInfo)
        requires
            old(self).wf(),
        ensures
            final(self).wf(),
            final(self)@ == old(self)@.remove_one(*animation),
    {
        if animation.ty == self.ty && animation.curve_id < self.curves.len() {
            self.curves[animation.curve_id] = None;
            self.id_pool.push(animation.curve_id);
            assert forall|i: int| 0 <= i < self@.free.len() implies (#[trigger] self@.free[i])
                < self@.curves.len() by {
                if i < old(self)@.free.len() {
                    assert(self@.free[i] == old(self)@.free[i]);
                }
            }
        }
    }

    /// Evaluates what is staged for one target: for each evaluation, in
    /// order, the curve is looked up and interpolated and the result is put
    /// into the pool; each failure goes behind `errs`.
    fn anime_target<F, R: TypeAnimationResultPool<F>, I: Fn(&D, Fixed, &AnimationAmountCalc) -> F>(
        &self,
        target: IDAnimatableTarget,
        infos: &Vec<RuntimeInfo>,
        result_pool: &mut R,
        interp: &I,
        errs: &mut Vec<EAnimationError>,
    )
        requires
            old(result_pool).wf(),
            forall|curve: &D, amount: Fixed, calc: &AnimationAmountCalc| #[trigger]
                call_requires(*interp, (curve, amount, calc)),
        ensures
            final(result_pool).wf(),
            final(result_pool).results().dom() == old(result_pool).results().dom(),
            forall|other: IDAnimatableTarget|
                other != target && old(result_pool).results().contains_key(other) ==> {
                    final(result_pool).results()[other] == old(result_pool).results()[other]
                },
            old(result_pool).results().contains_key(target) ==> spec_recorded(
                self@,
                *interp,
                infos@,
                old(result_pool).results()[target],
                final(result_pool).results()[target],
            ),
            final(errs)@ == old(errs)@ + spec_target_errors(
                self@,
                old(result_pool).results().contains_key(target),
                infos@,
            ),
    {
        let ghost recorded: bool = result_pool.results().contains_key(target);
        let ghost before: Seq<AnimeResult<F>> = result_pool.results()[target];
        let mut j: usize = 0;
        proof {
            assert(infos@.take(0) =~= Seq::<RuntimeInfo>::empty());
            assert(old(errs)@ + Seq::<EAnimationError>::empty() =~= old(errs)@);
            assert(before.subrange(0, before.len() as int) =~= before);
        }
        while j < infos.len()
            invariant
                j <= infos@.len(),
                result_pool.wf(),
                recorded == old(result_pool).results().contains_key(target),
                before == old(result_pool).results()[target],
                result_pool.results().dom() == old(result_pool).results().dom(),
                forall|other: IDAnimatableTarget|
                    other != target && old(result_pool).results().contains_key(other)
                        ==> result_pool.results()[other] == old(result_pool).results()[other],
                recorded ==> spec_recorded(
                    self@,
                    *interp,
                    infos@.take(j as int),
                    before,
                    result_pool.results()[target],
                ),
                errs@ == old(errs)@ + spec_target_errors(self@, recorded, infos@.take(j as int)),
                forall|curve: &D, amount: Fixed, calc: &AnimationAmountCalc| #[trigger]
                    call_requires(*interp, (curve, amount, calc)),
            decreases infos@.len() - j,
        {
            let info: &RuntimeInfo = &infos[j];
            let ghost current: Seq<AnimeResult<F>> = result_pool.results()[target];
            let ghost produced: Seq<AnimeResult<F>> = current.subrange(
                before.len() as int,
                current.len() as int,
            );
            proof {
                assert(infos@.take(j + 1).drop_last() =~= infos@.take(j as int));
                assert(infos@.take(j + 1).last() == infos@[j as int]);
            }
            let mut found: bool = false;
            if info.curve_id < self.curves.len() {
                match &self.curves[info.curve_id] {
                    Some(curve) => {
                        found = true;
                        let value: F = interp(curve, info.amount_in_second, &info.amount_calc);
                        let result = AnimeResult {
                            value,
                            attr: info.attr,
                            weight: info.group_weight,
                        };
                        match result_pool.record_result(target, info.attr, result) {
                            Ok(_) => {
                                proof {
                                    let after = result_pool.results()[target];
                                    let grown = after.subrange(
                                        before.len() as int,
                                        after.len() as int,
                                    );
                                    assert(after.subrange(0, before.len() as int) =~= before);
                                    assert(grown.drop_last() =~= produced);
                                    assert(grown.last() == result);
                                    assert(result_pool.results().dom() =~= old(result_pool).results().dom());
                                }
                            },
                            Err(e) => {
                                errs.push(e);
                            },
                        }
                    },
                    None => {},
                }
            }
            if !found {
                errs.push(EAnimationError::FrameCurveNotFound);
            }
            proof {
                let sofar = spec_target_errors(self@, recorded, infos@.take(j as int));
                let next = spec_target_errors(self@, recorded, infos@.take(j + 1));
                assert(errs@ =~= old(errs)@ + next);
            }
            j = j + 1;
        }
        proof {
            assert(infos@.take(infos@.len() as int) =~= infos@);
        }
    }

    /// Evaluates everything that is staged for this value type: target by
    /// target in the order in which the targets were staged, and for each
    /// target its evaluations in their order. A curve that exists is handed
    /// to `interp` with the sampling position and the shaper, and the result
    /// goes into the pool behind the results of the target. An evaluation
    /// whose curve is gone, or whose target the pool does not know, fails
    /// without stopping the others; the failures are returned together. The
    /// staging area is left as it is.
    pub fn anime<F, R: TypeAnimationResultPool<F>, I: Fn(&D, Fixed, &AnimationAmountCalc) -> F>(
        &self,
        runtime_infos: &RuntimeInfoMap,
        result_pool: &mut R,
        interp: I,
    ) -> (r: Result<(), Vec<EAnimationError>>)
        requires
            runtime_infos.wf(),
            old(result_pool).wf(),
            forall|curve: &D, amount: Fixed, calc: &AnimationAmountCalc| #[trigger]
                call_requires(interp, (curve, amount, calc)),
        ensures
            final(result_pool).wf(),
            final(result_pool).results().dom() == old(result_pool).results().dom(),
            self@.ty >= runtime_infos@.len() ==> {
                &&& final(result_pool).results() == old(result_pool).results()
                &&& r matches Err(errs)
                &&& errs@ == seq![EAnimationError::RuntimeInfoMapNotFindType]
            },
            self@.ty < runtime_infos@.len() ==> {
                &&& forall|target: IDAnimatableTarget| #[trigger]
                    old(result_pool).results().contains_key(target) ==> spec_recorded(
                        self@,
                        interp,
                        runtime_infos@[self@.ty as int].of(target),
                        old(result_pool).results()[target],
                        final(result_pool).results()[target],
                    )
                &&& match r {
                    Ok(_) => spec_errors(
                        self@,
                        old(result_pool).results().dom(),
                        runtime_infos@[self@.ty as int],
                    ).len() == 0,
                    Err(errs) => errs@.len() > 0 && errs@ == spec_errors(
                        self@,
                        old(result_pool).results().dom(),
                        runtime_infos@[self@.ty as int],
                    ),
                }
            },
    {
        let mut errs: Vec<EAnimationError> = Vec::new();
        let staged = match runtime_infos.get_type_list(self.ty) {
            Some(found) => found,
            None => {
                errs.push(EAnimationError::RuntimeInfoMapNotFindType);
                assert(errs@ =~= seq![EAnimationError::RuntimeInfoMapNotFindType]);
                return Err(errs);
            },
        };
        let targets = staged.targets();
        let ghost recorded: Set<IDAnimatableTarget> = result_pool.results().dom();
        let mut i: usize = 0;
        assert forall|target: IDAnimatableTarget| #[trigger]
            old(result_pool).results().contains_key(target) implies spec_untouched(
            old(result_pool).results()[target],
            result_pool.results()[target],
        ) by {}
        while i < targets.len()
            invariant
                i <= targets@.len(),
                targets@ == staged@.targets,
                staged@ == runtime_infos@[self@.ty as int],
                staged@.wf(),
                result_pool.wf(),
                recorded == old(result_pool).results().dom(),
                result_pool.results().dom() == recorded,
                errs@ == spec_errors_first(self@, recorded, staged@, i as nat),
                forall|target: IDAnimatableTarget| #[trigger]
                    recorded.contains(target) ==> if spec_among_first(targets@, i as int, target) {
                        spec_recorded(
                            self@,
                            interp,
                            staged@.of(target),
                            old(result_pool).results()[target],
                            result_pool.results()[target],
                        )
                    } else {
                        spec_untouched(
                            old(result_pool).results()[target],
                            result_pool.results()[target],
                        )
                    },
                forall|curve: &D, amount: Fixed, calc: &AnimationAmountCalc| #[trigger]
                    call_requires(interp, (curve, amount, calc)),
            decreases targets@.len() - i,
        {
            let target: IDAnimatableTarget = targets[i];
            let ghost pool_before = result_pool.results();
            let ghost errs_before = errs@;
            match staged.get(target) {
                Some(infos) => {
                    self.anime_target(target, infos, result_pool, &interp, &mut errs);
                },
                None => {
                    proof {
                        assert(staged@.of(target) =~= Seq::<RuntimeInfo>::empty());
                        assert(errs@ + Seq::<EAnimationError>::empty() =~= errs@);
                        if recorded.contains(target) {
                            let list = result_pool.results()[target];
                            assert(list.subrange(0, list.len() as int) =~= list);
                        }
                    }
                },
            }
            proof {
                assert forall|other: IDAnimatableTarget| #[trigger]
                    recorded.contains(other) implies if spec_among_first(
                    targets@,
                    i + 1,
                    other,
                ) {
                    spec_recorded(
                        self@,
                        interp,
                        staged@.of(other),
                        old(result_pool).results()[other],
                        result_pool.results()[other],
                    )
                } else {
                    spec_untouched(
                        old(result_pool).results()[other],
                        result_pool.results()[other],
                    )
                } by {
                    assert(pool_before.contains_key(other));
                    if other == target {
                        assert(targets@[i as int] == other);
                        if spec_among_first(targets@, i as int, other) {
                            let k = choose|k: int| 0 <= k < i && targets@[k] == other;
                            assert(targets@[k] == targets@[i as int]);
                        }
                    } else {
                        if spec_among_first(targets@, i + 1, other) {
                            let k = choose|k: int| 0 <= k < i + 1 && targets@[k] == other;
                            assert(k < i);
                        }
                    }
                }
            }
            i = i + 1;
        }
        proof {
            assert forall|target: IDAnimatableTarget| #[trigger]
                old(result_pool).results().contains_key(target) implies spec_recorded(
                self@,
                interp,
                staged@.of(target),
                old(result_pool).results()[target],
                result_pool.results()[target],
            ) by {
                assert(recorded.contains(target));
                if !spec_among_first(targets@, i as int, target) {
                    if staged@.infos.contains_key(target) {
                        assert(staged@.targets.contains(target));
                        let k = choose|k: int|
                            0 <= k < staged@.targets.len() && staged@.targets[k] == target;
                        assert(spec_among_first(targets@, i as int, target));
                    }
                    let list = result_pool.results()[target];
                    assert(list.subrange(0, list.len() as int) =~= list);
                }
            }
        }
        if errs.len() > 0 {
            Err(errs)
        } else {
            Ok(())
        }
    }

    /// Evaluates everything that is staged for this value type, for a host
    /// that vouches that the value type is registered and that every staged
    /// curve exists. A target that the pool does not know is passed over.
    pub fn anime_uncheck<
        F,
        R: TypeAnimationResultPool<F>,
        I: Fn(&D, Fixed, &AnimationAmountCalc) -> F,
    >(&self, runtime_infos: &mut RuntimeInfoMap, result_pool: &mut R, interp: I)
        requires
            old(runtime_infos).wf(),
            old(result_pool).wf(),
            self@.ty < old(runtime_infos)@.len(),
            forall|target: IDAnimatableTarget, k: int|
                0 <= k < old(runtime_infos)@[self@.ty as int].of(target).len() ==> self@.has_curve(
                    (#[trigger] old(runtime_infos)@[self@.ty as int].of(target)[k]).curve_id,
                ),
            forall|curve: &D, amount: Fixed, calc: &AnimationAmountCalc| #[trigger]
                call_requires(interp, (curve, amount, calc)),
        ensures
            final(runtime_infos)@ == old(runtime_infos)@,
            final(runtime_infos).wf(),
            final(result_pool).wf(),
            final(result_pool).results().dom() == old(result_pool).results().dom(),
            forall|target: IDAnimatableTarget| #[trigger]
                old(result_pool).results().contains_key(target) ==> spec_recorded(
                    self@,
                    interp,
                    old(runtime_infos)@[self@.ty as int].of(target),
                    old(result_pool).results()[target],
                    final(result_pool).results()[target],
                ),
    {
        let _ = self.anime(&*runtime_infos, result_pool, interp);
    }

    /// Removes the curves of animations, one after the other.
    pub fn remove(&mut self, animations: &Vec<AnimationInfo>)
        requires
            old(self).wf(),
        ensures
            final(self).wf(),
            final(self)@ == old(self)@.remove_all(animations@),
    {
        let mut i: usize = 0;
        while i < animations.len()
            invariant
                i <= animations@.len(),
                self.wf(),
                self@ == old(self)@.remove_first(animations@, i as nat),
            decreases animations@.len() - i,
        {
            self.remove_one(&animations[i]);
            i = i + 1;
        }
    }
}

/// The host's store of curves, as far as removing a group needs it.
pub trait AnimationContextMgr {
    /// Removes the curve of an animation.
    fn remove_curve(&mut self, info: &AnimationInfo);
}

/// An event of a group: the group, the kind of event, and the number of
/// loops that the group has completed.
pub type GroupEvent = (AnimationGroupID, EAnimationEvent, u32);

/// The groups, their records, the events and the staging area that a tick
/// works on.
pub struct TickState {
    pub groups: Map<AnimationGroupID, GroupView>,
    pub infos: Map<AnimationGroupID, AnimationGroupRuntimeInfo>,
    pub events: Seq<GroupEvent>,
    pub staged: Seq<StagedInfos>,
}

/// The record of a group as a tick finds it: the events of the last tick
/// are cleared, and the sampling position is remembered as the last one.
pub open spec fn spec_tick_info(info: AnimationGroupRuntimeInfo) -> AnimationGroupRuntimeInfo {
    AnimationGroupRuntimeInfo {
        start_event: false,
        end_event: false,
        loop_event: false,
        last_amount_in_second: info.amount_in_second,
        ..info
    }
}

/// The record of a group that was stopped or deleted.
pub open spec fn spec_stopped_info(info: AnimationGroupRuntimeInfo) -> AnimationGroupRuntimeInfo {
    AnimationGroupRuntimeInfo {
        is_playing: false,
        amount_in_second: 0,
        last_amount_in_second: 0,
        looped_count: 0,
        start_event: false,
        end_event: false,
        loop_event: false,
    }
}

/// The events that the record of a group tells of: start, end and loop, in
/// this order, each with the number of loops completed.
pub open spec fn spec_events_of(
    id: AnimationGroupID,
    info: AnimationGroupRuntimeInfo,
) -> Seq<GroupEvent> {
    (if info.start_event {
        seq![(id, EAnimationEvent::Start, info.looped_count)]
    } else {
        Seq::<GroupEvent>::empty()
    }) + (if info.end_event {
        seq![(id, EAnimationEvent::End, info.looped_count)]
    } else {
        Seq::<GroupEvent>::empty()
    }) + (if info.loop_event {
        seq![(id, EAnimationEvent::Loop, info.looped_count)]
    } else {
        Seq::<GroupEvent>::empty()
    })
}

/// What a tick does for one group. The record of the group is made ready;
/// if it says that the group is playing, the group advances by `delta_ms`,
/// stages its evaluations and tells its events.
pub open spec fn spec_tick_one(state: TickState, id: AnimationGroupID, delta_ms: Fixed) -> TickState {
    if !state.infos.contains_key(id) {
        state
    } else if spec_tick_info(state.infos[id]).is_playing && state.groups.contains_key(id) {
        let ready = spec_tick_info(state.infos[id]);
        let group = state.groups[id];
        let after = group.state.spec_anime(delta_ms, false);
        let info = group.state.spec_anime_info(delta_ms, ready);
        TickState {
            groups: state.groups.insert(
                id,
                GroupView { state: after, animations: group.animations },
            ),
            infos: state.infos.insert(id, info),
            events: state.events + spec_events_of(id, info),
            staged: if group.state.spec_stages(delta_ms, false) {
                spec_stage(state.staged, after, group.animations)
            } else {
                state.staged
            },
        }
    } else {
        TickState { infos: state.infos.insert(id, spec_tick_info(state.infos[id])), ..state }
    }
}

/// What a tick does for the first `count` groups of `order`.
pub open spec fn spec_tick_first(
    state: TickState,
    order: Seq<AnimationGroupID>,
    delta_ms: Fixed,
    count: nat,
) -> TickState
    decreases count,
{
    if count == 0 {
        state
    } else {
        spec_tick_one(
            spec_tick_first(state, order, delta_ms, (count - 1) as nat),
            order[count - 1],
            delta_ms,
        )
    }
}

/// The tick time that the groups see: the host's whole milliseconds times
/// the time scale.
pub open spec fn spec_scaled_delta(delta_ms: u64, time_scale: Fixed) -> Fixed {
    scaled(delta_ms as int, time_scale as int, 1) as Fixed
}

/// A group that is not marked as playing takes no part in a tick: the tick
/// leaves the group, the events and the staging area as they are.
pub proof fn lemma_idle_group_tick(state: TickState, id: AnimationGroupID, delta_ms: Fixed)
    requires
        state.infos.contains_key(id) ==> !state.infos[id].is_playing,
    ensures
        spec_tick_one(state, id, delta_ms).groups == state.groups,
        spec_tick_one(state, id, delta_ms).events == state.events,
        spec_tick_one(state, id, delta_ms).staged == state.staged,
{
}

/// A whole tick passes over a group whose record says that it is not
/// playing: the group is as it was, its record still says that it is not
/// playing, and no event of the tick is an event of that group.
pub proof fn lemma_tick_passes_idle_group(
    state: TickState,
    order: Seq<AnimationGroupID>,
    delta_ms: Fixed,
    count: nat,
    id: AnimationGroupID,
)
    requires
        count <= order.len(),
        state.infos.contains_key(id) ==> !state.infos[id].is_playing,
    ensures
        spec_tick_first(state, order, delta_ms, count).infos.contains_key(id)
            == state.infos.contains_key(id),
        state.infos.contains_key(id) ==> !spec_tick_first(
            state,
            order,
            delta_ms,
            count,
        ).infos[id].is_playing,
        spec_tick_first(state, order, delta_ms, count).groups.contains_key(id)
            == state.groups.contains_key(id),
        state.groups.contains_key(id) ==> spec_tick_first(state, order, delta_ms, count).groups[id]
            == state.groups[id],
        state.events.len() <= spec_tick_first(state, order, delta_ms, count).events.len(),
        forall|k: int|
            state.events.len() <= k < spec_tick_first(state, order, delta_ms, count).events.len()
                ==> (#[trigger] spec_tick_first(state, order, delta_ms, count).events[k]).0 != id,
    decreases count,
{
    if count > 0 {
        lemma_tick_passes_idle_group(state, order, delta_ms, (count - 1) as nat, id);
        let before = spec_tick_first(state, order, delta_ms, (count - 1) as nat);
        let after = spec_tick_first(state, order, delta_ms, count);
        let one = order[count - 1];
        assert(after == spec_tick_one(before, one, delta_ms));
        if one == id {
            lemma_idle_group_tick(before, id, delta_ms);
        } else {
            assert forall|k: int| before.events.len() <= k < after.events.len() implies (
            #[trigger] after.events[k]).0 != id by {
                if before.infos.contains_key(one) && spec_tick_info(before.infos[one]).is_playing
                    && before.groups.contains_key(one) {
                    let info = before.groups[one].state.spec_anime_info(
                        delta_ms,
                        spec_tick_info(before.infos[one]),
                    );
                    let told = spec_events_of(one, info);
                    assert(after.events[k] == told[k - before.events.len()]);
                }
            }
        }
    }
}

/// What a tick makes of one group and its record: the record is made ready,
/// and if it says that the group is playing, the group advances.
pub open spec fn spec_group_tick(
    group: GroupView,
    info: AnimationGroupRuntimeInfo,
    delta_ms: Fixed,
) -> (GroupView, AnimationGroupRuntimeInfo) {
    let ready = spec_tick_info(info);
    if ready.is_playing {
        (
            GroupView {
                state: group.state.spec_anime(delta_ms, false),
                animations: group.animations,
            },
            group.state.spec_anime_info(delta_ms, ready),
        )
    } else {
        (group, ready)
    }
}

/// What a sequence of ticks makes of one group and its record.
pub open spec fn spec_group_ticks(
    group: GroupView,
    info: AnimationGroupRuntimeInfo,
    deltas: Seq<Fixed>,
    count: nat,
) -> (GroupView, AnimationGroupRuntimeInfo)
    decreases count,
{
    if count == 0 {
        (group, info)
    } else {
        let before = spec_group_ticks(group, info, deltas, (count - 1) as nat);
        spec_group_tick(before.0, before.1, deltas[count - 1])
    }
}

/// Whether a record tells of an event of a kind.
pub open spec fn spec_tells(info: AnimationGroupRuntimeInfo, kind: EAnimationEvent) -> bool {
    match kind {
        EAnimationEvent::Start => info.start_event,
        EAnimationEvent::End => info.end_event,
        EAnimationEvent::Loop => info.loop_event,
        _ => false,
    }
}

/// The number of events of a kind that a group has among some events.
pub open spec fn spec_event_count(
    events: Seq<GroupEvent>,
    id: AnimationGroupID,
    kind: EAnimationEvent,
) -> nat
    decreases events.len(),
{
    if events.len() == 0 {
        0
    } else {
        spec_event_count(events.drop_last(), id, kind) + if events.last().0 == id
            && events.last().1 == kind {
            1nat
        } else {
            0nat
        }
    }
}

/// The events of a group are counted part by part.
pub proof fn lemma_event_count_add(
    first: Seq<GroupEvent>,
    second: Seq<GroupEvent>,
    id: AnimationGroupID,
    kind: EAnimationEvent,
)
    ensures
        spec_event_count(first + second, id, kind) == spec_event_count(first, id, kind)
            + spec_event_count(second, id, kind),
    decreases second.len(),
{
    if second.len() == 0 {
        assert(first + second =~= first);
    } else {
        lemma_event_count_add(first, second.drop_last(), id, kind);
        assert((first + second).drop_last() =~= first + second.drop_last());
        assert((first + second).last() == second.last());
    }
}

/// A record tells of each kind of event at most once, and only of events
/// of its own group.
pub proof fn lemma_event_count_of_record(
    one: AnimationGroupID,
    info: AnimationGroupRuntimeInfo,
    id: AnimationGroupID,
    kind: EAnimationEvent,
)
    ensures
        spec_event_count(spec_events_of(one, info), id, kind) == if one == id && spec_tells(
            info,
            kind,
        ) {
            1nat
        } else {
            0nat
        },
{
    let none = Seq::<GroupEvent>::empty();
    let start = if info.start_event {
        seq![(one, EAnimationEvent::Start, info.looped_count)]
    } else {
        none
    };
    let end = if info.end_event {
        seq![(one, EAnimationEvent::End, info.looped_count)]
    } else {
        none
    };
    let looped = if info.loop_event {
        seq![(one, EAnimationEvent::Loop, info.looped_count)]
    } else {
        none
    };
    assert(spec_events_of(one, info) == start + end + looped);
    lemma_event_count_add(start + end, looped, id, kind);
    lemma_event_count_add(start, end, id, kind);
    assert(spec_event_count(none, id, kind) == 0);
    assert forall|single: Seq<GroupEvent>| single.len() == 1 implies #[trigger] spec_event_count(
        single,
        id,
        kind,
    ) == if single[0].0 == id && single[0].1 == kind {
        1nat
    } else {
        0nat
    } by {
        assert(single.drop_last().len() == 0);
        assert(spec_event_count(single.drop_last(), id, kind) == 0);
    }
}

/// A tick deals with each group by itself. Where no key stands twice in
/// the order, a group among the first `count` and its record are after the
/// tick what the tick makes of the two alone, and the tick adds one event
/// of the group for each kind that its record then tells of; a group that
/// is not among them is left as it was, with no event added.
pub proof fn lemma_tick_is_local(
    state: TickState,
    order: Seq<AnimationGroupID>,
    delta_ms: Fixed,
    count: nat,
    id: AnimationGroupID,
    kind: EAnimationEvent,
)
    requires
        count <= order.len(),
        order.no_duplicates(),
        state.groups.contains_key(id),
        state.infos.contains_key(id),
    ensures
        spec_tick_first(state, order, delta_ms, count).groups.contains_key(id),
        spec_tick_first(state, order, delta_ms, count).infos.contains_key(id),
        spec_among(order, count as int, id) ==> {
            &&& spec_tick_first(state, order, delta_ms, count).groups[id] == spec_group_tick(
                state.groups[id],
                state.infos[id],
                delta_ms,
            ).0
            &&& spec_tick_first(state, order, delta_ms, count).infos[id] == spec_group_tick(
                state.groups[id],
                state.infos[id],
                delta_ms,
            ).1
            &&& spec_event_count(
                spec_tick_first(state, order, delta_ms, count).events,
                id,
                kind,
            ) == spec_event_count(state.events, id, kind) + if spec_tells(
                spec_group_tick(state.groups[id], state.infos[id], delta_ms).1,
                kind,
            ) {
                1nat
            } else {
                0nat
            }
        },
        !spec_among(order, count as int, id) ==> {
            &&& spec_tick_first(state, order, delta_ms, count).groups[id] == state.groups[id]
            &&& spec_tick_first(state, order, delta_ms, count).infos[id] == state.infos[id]
            &&& spec_event_count(
                spec_tick_first(state, order, delta_ms, count).events,
                id,
                kind,
            ) == spec_event_count(state.events, id, kind)
        },
    decreases count,
{
    if count > 0 {
        lemma_tick_is_local(state, order, delta_ms, (count - 1) as nat, id, kind);
        let before = spec_tick_first(state, order, delta_ms, (count - 1) as nat);
        let after = spec_tick_first(state, order, delta_ms, count);
        let one = order[count - 1];
        assert(after == spec_tick_one(before, one, delta_ms));
        if before.infos.contains_key(one) && spec_tick_info(before.infos[one]).is_playing
            && before.groups.contains_key(one) {
            let info = before.groups[one].state.spec_anime_info(
                delta_ms,
                spec_tick_info(before.infos[one]),
            );
            lemma_event_count_add(before.events, spec_events_of(one, info), id, kind);
            lemma_event_count_of_record(one, info, id, kind);
        }
        if one == id {
            assert(!spec_among(order, count - 1, id)) by {
                if spec_among(order, count - 1, id) {
                    let k = choose|k: int| 0 <= k < count - 1 && k < order.len() && order[k] == id;
                    assert(order[k] == order[count - 1]);
                }
            }
            assert(spec_among(order, count as int, id));
            state.groups[id].state.lemma_anime_info_events(delta_ms, spec_tick_info(state.infos[id]));
        } else {
            if spec_among(order, count as int, id) {
                let k = choose|k: int| 0 <= k < count && k < order.len() && order[k] == id;
                assert(k < count - 1);
                assert(spec_among(order, count - 1, id));
            }
            if spec_among(order, count - 1, id) {
                let k = choose|k: int| 0 <= k < count - 1 && k < order.len() && order[k] == id;
                assert(spec_among(order, count as int, id));
            }
        }
    } else {
        assert(!spec_among(order, 0, id));
    }
}

/// What a sequence of whole ticks over the groups of `order` makes of the
/// state. Each tick starts with no events; the staging area is handed on.
pub open spec fn spec_ticks(
    state: TickState,
    order: Seq<AnimationGroupID>,
    deltas: Seq<Fixed>,
    count: nat,
) -> TickState
    decreases count,
{
    if count == 0 {
        state
    } else {
        let before = spec_ticks(state, order, deltas, (count - 1) as nat);
        spec_tick_first(
            TickState { events: Seq::empty(), ..before },
            order,
            deltas[count - 1],
            order.len(),
        )
    }
}

/// Over any number of whole ticks a group goes its own way: what becomes
/// of the group and of its record depends on the two and on the tick times
/// alone, whatever else the context holds. The events of the group after
/// the last tick are one for each kind that its record tells of.
pub proof fn lemma_ticks_are_local(
    state: TickState,
    order: Seq<AnimationGroupID>,
    deltas: Seq<Fixed>,
    count: nat,
    id: AnimationGroupID,
    kind: EAnimationEvent,
)
    requires
        order.no_duplicates(),
        order.contains(id),
        state.groups.contains_key(id),
        state.infos.contains_key(id),
    ensures
        spec_ticks(state, order, deltas, count).groups.contains_key(id),
        spec_ticks(state, order, deltas, count).infos.contains_key(id),
        spec_ticks(state, order, deltas, count).groups[id] == spec_group_ticks(
            state.groups[id],
            state.infos[id],
            deltas,
            count,
        ).0,
        spec_ticks(state, order, deltas, count).infos[id] == spec_group_ticks(
            state.groups[id],
            state.infos[id],
            deltas,
            count,
        ).1,
        count > 0 ==> spec_event_count(spec_ticks(state, order, deltas, count).events, id, kind)
            == if spec_tells(spec_ticks(state, order, deltas, count).infos[id], kind) {
            1nat
        } else {
            0nat
        },
    decreases count,
{
    if count > 0 {
        lemma_ticks_are_local(state, order, deltas, (count - 1) as nat, id, kind);
        let before = spec_ticks(state, order, deltas, (count - 1) as nat);
        let cleared = TickState { events: Seq::empty(), ..before };
        lemma_tick_is_local(cleared, order, deltas[count - 1], order.len(), id, kind);
        let k = choose|k: int| 0 <= k < order.len() && order[k] == id;
        assert(spec_among(order, order.len() as int, id));
        assert(spec_event_count(cleared.events, id, kind) == 0);
    }
}

/// A group whose record agrees with it on whether it plays follows its
/// clock over any number of ticks: its state is the state of the run, the
/// two still agree, and after each tick the record tells of the start, the
/// end and the loop exactly where that tick raises them.
pub proof fn lemma_group_ticks_follow_the_clock(
    group: GroupView,
    info: AnimationGroupRuntimeInfo,
    deltas: Seq<Fixed>,
    count: nat,
)
    requires
        info.is_playing == group.state.is_playing,
    ensures
        spec_group_ticks(group, info, deltas, count).0.state == group.state.spec_run(deltas, count),
        spec_group_ticks(group, info, deltas, count).0.animations == group.animations,
        spec_group_ticks(group, info, deltas, count).1.is_playing == group.state.spec_run(
            deltas,
            count,
        ).is_playing,
        count > 0 ==> {
            &&& spec_group_ticks(group, info, deltas, count).1.start_event == group.state.spec_run(
                deltas,
                (count - 1) as nat,
            ).spec_raises_start()
            &&& spec_group_ticks(group, info, deltas, count).1.end_event == group.state.spec_run(
                deltas,
                (count - 1) as nat,
            ).spec_raises_end(deltas[count - 1])
            &&& spec_group_ticks(group, info, deltas, count).1.loop_event == group.state.spec_run(
                deltas,
                (count - 1) as nat,
            ).spec_raises_loop(deltas[count - 1])
        },
    decreases count,
{
    if count > 0 {
        lemma_group_ticks_follow_the_clock(group, info, deltas, (count - 1) as nat);
        let before = spec_group_ticks(group, info, deltas, (count - 1) as nat);
        before.0.state.lemma_anime_info_events(deltas[count - 1], spec_tick_info(before.1));
    }
}

/// Once a group is deleted and the curves of the removed animations are
/// removed from the context of a value type, the slot of each of the group's
/// animations of that type is empty and waits to be used again.
pub proof fn lemma_deleted_group_frees_slots<D>(
    slots: CurveSlots<D>,
    removed: Seq<AnimationInfo>,
    orphans: Seq<AnimationInfo>,
)
    requires
        slots.wf(),
    ensures
        forall|k: int|
            0 <= k < orphans.len() && slots.owns(#[trigger] orphans[k]) ==> {
                &&& slots.remove_all(removed + orphans).curves[orphans[k].curve_id as int] is None
                &&& slots.remove_all(removed + orphans).free.contains(orphans[k].curve_id)
            },
{
    let all = removed + orphans;
    slots.lemma_removed_slots_are_free(all, all.len());
    assert forall|k: int| 0 <= k < orphans.len() && slots.owns(#[trigger] orphans[k]) implies {
        &&& slots.remove_all(all).curves[orphans[k].curve_id as int] is None
        &&& slots.remove_all(all).free.contains(orphans[k].curve_id)
    } by {
        assert(all[removed.len() + k] == orphans[k]);
    }
}

/// The arguments of a start over the whole length of a group.
pub open spec fn spec_complete_options(
    group: GroupState,
    seconds: Fixed,
    loop_mode: ELoopMode,
    frame_per_second: FramePerSecond,
    amount_calc: AnimationAmountCalc,
    delay_time_ms: TimeMS,
    fill_mode: EFillMode,
) -> StartOptions {
    StartOptions {
        speed: crate::base::fixed_quotient(crate::base::FIXED_ONE as int, seconds as int) as Fixed,
        loop_mode,
        from: 0,
        to: group.spec_max_frame(),
        frame_per_second,
        amount_calc_between_frame: amount_calc,
        delay_time_ms,
        fill_mode,
    }
}

/// The arguments of a start between two fractions of the length of a group.
pub open spec fn spec_progress_options(
    group: GroupState,
    speed: Fixed,
    loop_mode: ELoopMode,
    from: Fixed,
    to: Fixed,
    frame_per_second: FramePerSecond,
    amount_calc: AnimationAmountCalc,
    delay_time_ms: TimeMS,
    fill_mode: EFillMode,
) -> StartOptions {
    StartOptions {
        speed,
        loop_mode,
        from: crate::base::fixed_product(from as int, group.spec_max_frame() as int) as Fixed,
        to: crate::base::fixed_product(to as int, group.spec_max_frame() as int) as Fixed,
        frame_per_second,
        amount_calc_between_frame: amount_calc,
        delay_time_ms,
        fill_mode,
    }
}

/// The groups after a start of a group that exists: the group is as the
/// start leaves it, started if the start is taken and untouched if it is
/// refused.
pub open spec fn spec_started_groups(
    groups: Map<AnimationGroupID, GroupView>,
    id: AnimationGroupID,
    options: StartOptions,
) -> Map<AnimationGroupID, GroupView> {
    groups.insert(
        id,
        GroupView {
            state: options.spec_apply(groups[id].state, AnimationGroupRuntimeInfo::spec_idle()).0,
            animations: groups[id].animations,
        },
    )
}

/// The records after a start of a group that exists: if the start is taken
/// and the group has a record, the record says that the group is playing,
/// from where the run begins; else the records are as they were.
pub open spec fn spec_started_infos(
    groups: Map<AnimationGroupID, GroupView>,
    infos: Map<AnimationGroupID, AnimationGroupRuntimeInfo>,
    id: AnimationGroupID,
    options: StartOptions,
) -> Map<AnimationGroupID, AnimationGroupRuntimeInfo> {
    if infos.contains_key(id) && options.spec_result(groups[id].state) is Ok {
        infos.insert(id, groups[id].state.spec_start_info(options, infos[id]))
    } else {
        infos
    }
}

/// Whether a call did what a start of a group does. A key that names no
/// group is refused as not found. Else the start is refused exactly when the
/// group is playing or the frame rate is zero. A start that is refused
/// changes nothing; one that is taken sets the run up from its beginning.
pub open spec fn spec_start_met(
    groups: Map<AnimationGroupID, GroupView>,
    infos: Map<AnimationGroupID, AnimationGroupRuntimeInfo>,
    id: AnimationGroupID,
    options: StartOptions,
    r: Result<(), EAnimationError>,
    groups_after: Map<AnimationGroupID, GroupView>,
    infos_after: Map<AnimationGroupID, AnimationGroupRuntimeInfo>,
) -> bool {
    if !groups.contains_key(id) {
        &&& r == Err::<(), EAnimationError>(EAnimationError::AnimationGroupNotFound)
        &&& groups_after == groups
        &&& infos_after == infos
    } else {
        &&& r == options.spec_result(groups[id].state)
        &&& groups_after == spec_started_groups(groups, id, options)
        &&& infos_after == spec_started_infos(groups, infos, id, options)
    }
}

/// What halting a group returns: a key that names no group is not found,
/// and a group that is not playing cannot be halted.
pub open spec fn spec_halt_result(
    groups: Map<AnimationGroupID, GroupView>,
    id: AnimationGroupID,
) -> Result<(), EAnimationError> {
    if !groups.contains_key(id) {
        Err(EAnimationError::AnimationGroupNotFound)
    } else if !groups[id].state.is_playing {
        Err(EAnimationError::AnimationGroupNotPlaying)
    } else {
        Ok(())
    }
}

/// The groups after a group was halted: if the halt is taken, the group no
/// longer plays and is else as it was; if it is refused nothing changes.
pub open spec fn spec_halted_groups(
    groups: Map<AnimationGroupID, GroupView>,
    id: AnimationGroupID,
) -> Map<AnimationGroupID, GroupView> {
    if spec_halt_result(groups, id) is Ok {
        groups.insert(
            id,
            GroupView {
                state: GroupState { is_playing: false, ..groups[id].state },
                animations: groups[id].animations,
            },
        )
    } else {
        groups
    }
}

/// The records after a group was halted: if the halt is taken and the group
/// has a record, the record is `record`; else the records are as they were.
pub open spec fn spec_halted_infos(
    groups: Map<AnimationGroupID, GroupView>,
    infos: Map<AnimationGroupID, AnimationGroupRuntimeInfo>,
    id: AnimationGroupID,
    record: AnimationGroupRuntimeInfo,
) -> Map<AnimationGroupID, AnimationGroupRuntimeInfo> {
    if spec_halt_result(groups, id) is Ok && infos.contains_key(id) {
        infos.insert(id, record)
    } else {
        infos
    }
}

/// The number of events of a kind that the first `count` whole ticks tell
/// of a group, all ticks taken together.
pub open spec fn spec_told(
    state: TickState,
    order: Seq<AnimationGroupID>,
    deltas: Seq<Fixed>,
    count: nat,
    id: AnimationGroupID,
    kind: EAnimationEvent,
) -> nat
    decreases count,
{
    if count == 0 {
        0
    } else {
        spec_told(state, order, deltas, (count - 1) as nat, id, kind) + spec_event_count(
            spec_ticks(state, order, deltas, count).events,
            id,
            kind,
        )
    }
}

/// Over any number of whole ticks the context tells of a group the events
/// that the run of the group raises, as many of each kind.
pub proof fn lemma_ticks_tell_what_the_run_raises(
    state: TickState,
    order: Seq<AnimationGroupID>,
    deltas: Seq<Fixed>,
    count: nat,
    id: AnimationGroupID,
)
    requires
        order.no_duplicates(),
        order.contains(id),
        state.groups.contains_key(id),
        state.infos.contains_key(id),
        state.infos[id].is_playing == state.groups[id].state.is_playing,
    ensures
        spec_ticks(state, order, deltas, count).groups.contains_key(id),
        spec_ticks(state, order, deltas, count).groups[id].state
            == state.groups[id].state.spec_run(deltas, count),
        spec_told(state, order, deltas, count, id, EAnimationEvent::Start)
            == state.groups[id].state.spec_run_starts(deltas, count),
        spec_told(state, order, deltas, count, id, EAnimationEvent::End)
            == state.groups[id].state.spec_run_ends(deltas, count),
        spec_told(state, order, deltas, count, id, EAnimationEvent::Loop)
            == state.groups[id].state.spec_run_loops(deltas, count),
    decreases count,
{
    lemma_ticks_are_local(state, order, deltas, count, id, EAnimationEvent::Start);
    lemma_ticks_are_local(state, order, deltas, count, id, EAnimationEvent::End);
    lemma_ticks_are_local(state, order, deltas, count, id, EAnimationEvent::Loop);
    lemma_group_ticks_follow_the_clock(state.groups[id], state.infos[id], deltas, count);
    if count > 0 {
        lemma_ticks_tell_what_the_run_raises(state, order, deltas, (count - 1) as nat, id);
    }
}

/// A group that does not loop, whose delay is over and whose first tick
/// moves its clock is told of as starting once, at no time as looping, and
/// as ending once, from the tick on at which it stops playing.
pub proof fn lemma_one_start_and_one_end(
    state: TickState,
    order: Seq<AnimationGroupID>,
    deltas: Seq<Fixed>,
    count: nat,
    id: AnimationGroupID,
)
    requires
        order.no_duplicates(),
        order.contains(id),
        state.groups.contains_key(id),
        state.infos.contains_key(id),
        state.infos[id].is_playing,
        state.groups[id].state.wf(),
        state.groups[id].state.is_playing,
        state.groups[id].state.loop_mode is Not,
        !state.groups[id].state.spec_in_delay(),
        state.groups[id].state.spec_at_start(),
        count >= 1,
        deltas.len() >= 1,
        crate::base::fixed_product(deltas[0] as int, state.groups[id].state.speed as int)
            >= crate::animation_group::START_TOLERANCE_MS,
    ensures
        spec_told(state, order, deltas, count, id, EAnimationEvent::Start) == 1,
        spec_told(state, order, deltas, count, id, EAnimationEvent::Loop) == 0,
        spec_told(state, order, deltas, count, id, EAnimationEvent::End) == if spec_ticks(
            state,
            order,
            deltas,
            count,
        ).groups[id].state.is_playing {
            0nat
        } else {
            1nat
        },
{
    lemma_ticks_tell_what_the_run_raises(state, order, deltas, count, id);
    state.groups[id].state.lemma_single_start(deltas, count);
    state.groups[id].state.lemma_single_run_events(deltas, count);
}

/// The state of the context after a start of a group that exists.
pub open spec fn spec_started(state: TickState, id: AnimationGroupID, options: StartOptions) -> TickState {
    TickState {
        groups: spec_started_groups(state.groups, id, options),
        infos: spec_started_infos(state.groups, state.infos, id, options),
        ..state
    }
}

/// The state of the context after a group was halted, with `record` as the
/// record that the halt leaves.
pub open spec fn spec_halted(
    state: TickState,
    id: AnimationGroupID,
    record: AnimationGroupRuntimeInfo,
) -> TickState {
    TickState {
        groups: spec_halted_groups(state.groups, id),
        infos: spec_halted_infos(state.groups, state.infos, id, record),
        ..state
    }
}

/// A start without delay of an idle group leaves the group and its record
/// ready for the first tick: both say that the group is playing, no delay
/// is running, and the run is at its start.
pub proof fn lemma_started_group_is_ready(
    state: TickState,
    id: AnimationGroupID,
    options: StartOptions,
)
    requires
        state.groups.contains_key(id),
        state.infos.contains_key(id),
        state.groups[id].state.wf(),
        !state.groups[id].state.is_playing,
        options.frame_per_second != 0,
        options.delay_time_ms == 0,
    ensures
        spec_started(state, id, options).groups.contains_key(id),
        spec_started(state, id, options).infos.contains_key(id),
        spec_started(state, id, options).groups[id].state == state.groups[id].state.spec_start(
            options,
        ),
        spec_started(state, id, options).groups[id].state.wf(),
        spec_started(state, id, options).groups[id].state.is_playing,
        spec_started(state, id, options).groups[id].state.loop_mode == options.loop_mode,
        spec_started(state, id, options).groups[id].state.speed == options.speed,
        !spec_started(state, id, options).groups[id].state.spec_in_delay(),
        spec_started(state, id, options).groups[id].state.spec_at_start(),
        spec_started(state, id, options).infos[id].is_playing,
{
    state.groups[id].state.lemma_start_wf(options);
}

/// A run that does not loop, from its start on: where an idle group is
/// started without delay and the first tick moves its clock, the ticks
/// that follow tell of the group as starting once, at the first tick, at
/// no time as looping, and as ending once, from the tick on at which it
/// stops playing.
pub proof fn lemma_single_run_in_context(
    state: TickState,
    order: Seq<AnimationGroupID>,
    id: AnimationGroupID,
    options: StartOptions,
    deltas: Seq<Fixed>,
    count: nat,
)
    requires
        order.no_duplicates(),
        order.contains(id),
        state.groups.contains_key(id),
        state.infos.contains_key(id),
        state.groups[id].state.wf(),
        !state.groups[id].state.is_playing,
        options.frame_per_second != 0,
        options.delay_time_ms == 0,
        options.loop_mode is Not,
        count >= 1,
        deltas.len() >= 1,
        crate::base::fixed_product(deltas[0] as int, options.speed as int)
            >= crate::animation_group::START_TOLERANCE_MS,
    ensures
        spec_told(spec_started(state, id, options), order, deltas, 1, id, EAnimationEvent::Start)
            == 1,
        spec_told(
            spec_started(state, id, options),
            order,
            deltas,
            count,
            id,
            EAnimationEvent::Start,
        ) == 1,
        spec_told(
            spec_started(state, id, options),
            order,
            deltas,
            count,
            id,
            EAnimationEvent::Loop,
        ) == 0,
        spec_told(spec_started(state, id, options), order, deltas, count, id, EAnimationEvent::End)
            == if spec_ticks(
            spec_started(state, id, options),
            order,
            deltas,
            count,
        ).groups[id].state.is_playing {
            0nat
        } else {
            1nat
        },
{
    let started = spec_started(state, id, options);
    lemma_started_group_is_ready(state, id, options);
    lemma_one_start_and_one_end(started, order, deltas, 1, id);
    lemma_one_start_and_one_end(started, order, deltas, count, id);
}

/// Two starts of a group with the same arguments begin the same run,
/// whatever ticks and whatever halt lie between them: after the second
/// start the group and its record are what they were after the first, and
/// after each tick that follows they are what they were after as many
/// ticks of the same times that followed the first.
pub proof fn lemma_restart_in_context(
    state: TickState,
    order: Seq<AnimationGroupID>,
    id: AnimationGroupID,
    options: StartOptions,
    between: Seq<Fixed>,
    ticks: nat,
    record: AnimationGroupRuntimeInfo,
    deltas: Seq<Fixed>,
    count: nat,
)
    requires
        order.no_duplicates(),
        order.contains(id),
        state.groups.contains_key(id),
        state.infos.contains_key(id),
        state.groups[id].state.wf(),
        !state.groups[id].state.is_playing,
        options.frame_per_second != 0,
    ensures
        ({
            let first = spec_started(state, id, options);
            let halted = spec_halted(spec_ticks(first, order, between, ticks), id, record);
            let second = spec_started(halted, id, options);
            &&& first.groups[id].state == state.groups[id].state.spec_start(options)
            &&& second.groups[id] == first.groups[id]
            &&& second.infos[id] == first.infos[id]
            &&& spec_ticks(second, order, deltas, count).groups[id] == spec_ticks(
                first,
                order,
                deltas,
                count,
            ).groups[id]
            &&& spec_ticks(second, order, deltas, count).infos[id] == spec_ticks(
                first,
                order,
                deltas,
                count,
            ).infos[id]
        }),
{
    let first = spec_started(state, id, options);
    let later = spec_ticks(first, order, between, ticks);
    let halted = spec_halted(later, id, record);
    let second = spec_started(halted, id, options);
    state.groups[id].state.lemma_restart(options, between, ticks, deltas, count);
    lemma_ticks_tell_what_the_run_raises(first, order, between, ticks, id);
    lemma_ticks_are_local(first, order, between, ticks, id, EAnimationEvent::Start);
    lemma_group_ticks_follow_the_clock(first.groups[id], first.infos[id], between, ticks);
    assert(halted.groups[id].state == GroupState {
        is_playing: false,
        ..first.groups[id].state.spec_run(between, ticks)
    });
    assert(halted.groups[id].animations == first.groups[id].animations);
    assert(second.groups[id] == first.groups[id]);
    assert(second.infos[id] == first.infos[id]);
    lemma_ticks_are_local(first, order, deltas, count, id, EAnimationEvent::Start);
    lemma_ticks_are_local(second, order, deltas, count, id, EAnimationEvent::Start);
}

/// One evaluation whose curve exists gives one result: the list of the
/// target is the list before with one result behind it, which has the
/// attribute and the weight of the evaluation and a value that the
/// interpolation can return for it.
pub proof fn lemma_one_evaluation_one_result<D, F, I: Fn(&D, Fixed, &AnimationAmountCalc) -> F>(
    slots: CurveSlots<D>,
    interp: I,
    info: RuntimeInfo,
    before: Seq<AnimeResult<F>>,
    after: Seq<AnimeResult<F>>,
)
    requires
        slots.has_curve(info.curve_id),
        spec_recorded(slots, interp, seq![info], before, after),
    ensures
        after.len() == before.len() + 1,
        after.drop_last() == before,
        after.last().attr == info.attr,
        after.last().weight == info.group_weight,
        call_ensures(
            interp,
            (&slots.curves[info.curve_id as int]->0, info.amount_in_second, &info.amount_calc),
            after.last().value,
        ),
{
    let infos = seq![info];
    let produced = after.subrange(before.len() as int, after.len() as int);
    assert(infos.last() == info);
    assert(infos.drop_last().len() == 0);
    assert(spec_produced(slots, interp, infos, produced));
    assert(spec_produced(slots, interp, infos.drop_last(), produced.drop_last()));
    assert(produced.drop_last().len() == 0);
    assert(produced.last() == after.last());
    assert(after.drop_last() =~= after.subrange(0, before.len() as int));
}

/// Where no other group is playing, a whole tick stages what the one
/// group stages: all its animations at the state that the tick brings it
/// to, if its record says that it is playing and the tick lets it stage;
/// else nothing.
pub proof fn lemma_tick_stages_the_playing_group(
    state: TickState,
    order: Seq<AnimationGroupID>,
    delta_ms: Fixed,
    count: nat,
    id: AnimationGroupID,
)
    requires
        count <= order.len(),
        order.no_duplicates(),
        state.groups.contains_key(id),
        state.infos.contains_key(id),
        forall|other: AnimationGroupID|
            other != id && state.infos.contains_key(other) ==> !(
            #[trigger] state.infos[other]).is_playing,
    ensures
        spec_tick_first(state, order, delta_ms, count).staged == if spec_among(
            order,
            count as int,
            id,
        ) && state.infos[id].is_playing && state.groups[id].state.spec_stages(delta_ms, false) {
            spec_stage(
                state.staged,
                state.groups[id].state.spec_anime(delta_ms, false),
                state.groups[id].animations,
            )
        } else {
            state.staged
        },
    decreases count,
{
    if count > 0 {
        lemma_tick_stages_the_playing_group(state, order, delta_ms, (count - 1) as nat, id);
        lemma_tick_is_local(
            state,
            order,
            delta_ms,
            (count - 1) as nat,
            id,
            EAnimationEvent::Start,
        );
        let before = spec_tick_first(state, order, delta_ms, (count - 1) as nat);
        let one = order[count - 1];
        if one == id {
            assert(!spec_among(order, count - 1, id)) by {
                if spec_among(order, count - 1, id) {
                    let k = choose|k: int| 0 <= k < count - 1 && k < order.len() && order[k] == id;
                    assert(order[k] == order[count - 1]);
                }
            }
            assert(spec_among(order, count as int, id));
        } else {
            lemma_tick_passes_idle_group(state, order, delta_ms, (count - 1) as nat, one);
            lemma_idle_group_tick(before, one, delta_ms);
            if spec_among(order, count as int, id) {
                let k = choose|k: int| 0 <= k < count && k < order.len() && order[k] == id;
                assert(spec_among(order, count - 1, id));
            }
            if spec_among(order, count - 1, id) {
                let k = choose|k: int| 0 <= k < count - 1 && k < order.len() && order[k] == id;
                assert(spec_among(order, count as int, id));
            }
        }
    } else {
        assert(!spec_among(order, 0, id));
    }
}

/// Where no target's evaluations fail, none of the first `count` staged
/// targets gives a failure.
pub proof fn lemma_no_failure<D>(
    slots: CurveSlots<D>,
    recorded: Set<IDAnimatableTarget>,
    staged: StagedInfos,
    count: nat,
)
    requires
        forall|target: IDAnimatableTarget|
            spec_target_errors(
                slots,
                recorded.contains(target),
                #[trigger] staged.of(target),
            ).len() == 0,
    ensures
        spec_errors_first(slots, recorded, staged, count).len() == 0,
    decreases count,
{
    if count > 0 {
        lemma_no_failure(slots, recorded, staged, (count - 1) as nat);
    }
}

/// From the tick to the pool, a group with an animation for each of its
/// targets gives each target one result. Where one group is playing and
/// stages at a tick, nothing was staged before for the targets of its
/// animations of a value type, their curves exist and their targets are
/// recorded, the evaluation of that value type puts behind the results of
/// each such target exactly one result, with the attribute of the
/// animation and the blend weight of the group. If nothing at all was
/// staged before for that value type, no evaluation fails.
pub proof fn lemma_one_result_per_target<D, F, I: Fn(&D, Fixed, &AnimationAmountCalc) -> F>(
    state: TickState,
    order: Seq<AnimationGroupID>,
    delta_ms: Fixed,
    id: AnimationGroupID,
    slots: CurveSlots<D>,
    interp: I,
    before: Map<IDAnimatableTarget, Seq<AnimeResult<F>>>,
    after: Map<IDAnimatableTarget, Seq<AnimeResult<F>>>,
)
    requires
        order.no_duplicates(),
        order.contains(id),
        state.groups.contains_key(id),
        state.infos.contains_key(id),
        forall|other: AnimationGroupID|
            other != id && state.infos.contains_key(other) ==> !(
            #[trigger] state.infos[other]).is_playing,
        state.infos[id].is_playing,
        state.groups[id].state.spec_stages(delta_ms, false),
        spec_staged_wf(state.staged),
        spec_one_per_target(state.staged, state.groups[id].animations),
        slots.ty < state.staged.len(),
        forall|k: int|
            0 <= k < state.groups[id].animations.len() && (
            #[trigger] state.groups[id].animations[k]).animation.ty == slots.ty ==> {
                &&& state.staged[slots.ty as int].of(state.groups[id].animations[k].target).len()
                    == 0
                &&& slots.has_curve(state.groups[id].animations[k].animation.curve_id)
                &&& before.contains_key(state.groups[id].animations[k].target)
            },
        forall|target: IDAnimatableTarget| #[trigger]
            before.contains_key(target) ==> spec_recorded(
                slots,
                interp,
                spec_tick_first(state, order, delta_ms, order.len()).staged[slots.ty as int].of(
                    target,
                ),
                before[target],
                after[target],
            ),
    ensures
        (forall|target: IDAnimatableTarget| #[trigger]
            state.staged[slots.ty as int].of(target).len() == 0) ==> spec_errors(
            slots,
            before.dom(),
            spec_tick_first(state, order, delta_ms, order.len()).staged[slots.ty as int],
        ).len() == 0,
        forall|k: int|
            0 <= k < state.groups[id].animations.len() && (
            #[trigger] state.groups[id].animations[k]).animation.ty == slots.ty ==> {
                &&& after[state.groups[id].animations[k].target].len()
                    == before[state.groups[id].animations[k].target].len() + 1
                &&& after[state.groups[id].animations[k].target].drop_last()
                    == before[state.groups[id].animations[k].target]
                &&& after[state.groups[id].animations[k].target].last().attr
                    == state.groups[id].animations[k].animation.attr
                &&& after[state.groups[id].animations[k].target].last().weight
                    == state.groups[id].state.blend_weight
            },
{
    let group = state.groups[id];
    let moved = group.state.spec_anime(delta_ms, false);
    let staged = spec_tick_first(state, order, delta_ms, order.len()).staged;
    lemma_tick_stages_the_playing_group(state, order, delta_ms, order.len(), id);
    let at = choose|at: int| 0 <= at < order.len() && order[at] == id;
    assert(spec_among(order, order.len() as int, id));
    assert(staged == spec_stage(state.staged, moved, group.animations));
    lemma_stage_one_per_target(state.staged, moved, group.animations, group.animations.len());
    assert forall|k: int|
        0 <= k < group.animations.len() && (#[trigger] group.animations[k]).animation.ty
            == slots.ty implies {
        &&& after[group.animations[k].target].len() == before[group.animations[k].target].len() + 1
        &&& after[group.animations[k].target].drop_last() == before[group.animations[k].target]
        &&& after[group.animations[k].target].last().attr == group.animations[k].animation.attr
        &&& after[group.animations[k].target].last().weight == group.state.blend_weight
    } by {
        let one = group.animations[k];
        let info = moved.spec_runtime_info(one.animation);
        assert(staged[slots.ty as int].of(one.target) == state.staged[slots.ty as int].of(
            one.target,
        ).push(info));
        assert(staged[slots.ty as int].of(one.target) =~= seq![info]);
        assert(before.contains_key(one.target));
        lemma_one_evaluation_one_result(slots, interp, info, before[one.target], after[one.target]);
    }
    if forall|target: IDAnimatableTarget| #[trigger]
        state.staged[slots.ty as int].of(target).len() == 0 {
        assert forall|target: IDAnimatableTarget|
            spec_target_errors(
                slots,
                before.dom().contains(target),
                #[trigger] staged[slots.ty as int].of(target),
            ).len() == 0 by {
            let list = staged[slots.ty as int].of(target);
            if exists|k: int|
                0 <= k < group.animations.len() && (#[trigger] group.animations[k]).target
                    == target && group.animations[k].animation.ty == slots.ty {
                let k = choose|k: int|
                    0 <= k < group.animations.len() && (#[trigger] group.animations[k]).target
                        == target && group.animations[k].animation.ty == slots.ty;
                let info = moved.spec_runtime_info(group.animations[k].animation);
                assert(list == state.staged[slots.ty as int].of(target).push(info));
                assert(list =~= seq![info]);
                assert(list.last() == info);
                assert(list.drop_last().len() == 0);
                assert(spec_target_errors(slots, true, list.drop_last()).len() == 0);
            } else {
                assert(list == state.staged[slots.ty as int].of(target));
            }
        }
        lemma_no_failure(
            slots,
            before.dom(),
            staged[slots.ty as int],
            staged[slots.ty as int].targets.len(),
        );
    }
}

/// The orchestrator: it owns the groups and their records, starts and
/// stops them, and advances them tick by tick.
pub struct AnimationContextAmount<M: AnimationGroupManager> {
    /// The store of the groups.
    pub group_mgr: M,
    /// The records of the groups.
    pub group_infos: GroupInfoTable,
    /// By how much the tick time of the host is scaled for the groups.
    pub time_scale: Fixed,
    /// The events of the last tick, in the order in which the groups raised
    /// them.
    pub group_events: Vec<GroupEvent>,
    /// The animations of deleted groups whose curves wait to be removed.
    pub removed_animations: Vec<AnimationInfo>,
}

impl<M: AnimationGroupManager> AnimationContextAmount<M> {
    /// The groups, by key.
    pub open spec fn groups(&self) -> Map<AnimationGroupID, GroupView> {
        self.group_mgr.groups().map_values(|group: AnimationGroup| group@)
    }

    /// The records of the groups, by key.
    pub open spec fn infos(&self) -> Map<AnimationGroupID, AnimationGroupRuntimeInfo> {
        self.group_infos.infos()
    }

    /// The keys of the records in the order in which a tick visits them.
    pub open spec fn order(&self) -> Seq<AnimationGroupID> {
        self.group_infos.order()
    }

    /// Whether one more group can be made.
    pub open spec fn has_room(&self) -> bool {
        self.group_mgr.has_room()
    }

    /// A context without groups, with a time scale of one.
    pub fn default(group_mgr: M) -> (r: AnimationContextAmount<M>)
        ensures
            r.groups() == group_mgr.groups().map_values(|group: AnimationGroup| group@),
            r.infos() =~= Map::<AnimationGroupID, AnimationGroupRuntimeInfo>::empty(),
            r.time_scale == crate::base::FIXED_ONE,
            r.group_events@.len() == 0,
            r.removed_animations@.len() == 0,
    {
        AnimationContextAmount {
            group_mgr,
            group_infos: GroupInfoTable::new(),
            time_scale: crate::base::FIXED_ONE,
            group_events: Vec::new(),
            removed_animations: Vec::new(),
        }
    }

    /// Lets every tick of every group that has a record through the frame
    /// gate, or stops doing so.
    pub fn debug(&mut self, flag: bool)
        ensures
            final(self).infos() == old(self).infos(),
            final(self).order() == old(self).order(),
            final(self).time_scale == old(self).time_scale,
            final(self).group_events == old(self).group_events,
            final(self).removed_animations == old(self).removed_animations,
            final(self).groups().dom() == old(self).groups().dom(),
            forall|id: AnimationGroupID| #[trigger]
                old(self).groups().contains_key(id) ==> final(self).groups()[id] == spec_debugged(
                    old(self).groups()[id],
                    old(self).infos().contains_key(id),
                    flag,
                ),
    {
        let keys: Vec<AnimationGroupID> = self.group_infos.keys();
        let mut i: usize = 0;
        while i < keys.len()
            invariant
                i <= keys@.len(),
                keys@.no_duplicates(),
                forall|id: AnimationGroupID|
                    keys@.contains(id) <==> old(self).infos().contains_key(id),
                self.group_infos == old(self).group_infos,
                self.time_scale == old(self).time_scale,
                self.group_events == old(self).group_events,
                self.removed_animations == old(self).removed_animations,
                self.groups().dom() == old(self).groups().dom(),
                forall|id: AnimationGroupID| #[trigger]
                    old(self).groups().contains_key(id) ==> self.groups()[id] == spec_debugged(
                        old(self).groups()[id],
                        spec_among(keys@, i as int, id),
                        flag,
                    ),
            decreases keys@.len() - i,
        {
            let id: AnimationGroupID = keys[i];
            let ghost before = self.groups();
            match self.group_mgr.get_mut(id) {
                Some(group) => {
                    group.set_debug(flag);
                },
                None => {},
            }
            proof {
                assert(self.groups().dom() =~= before.dom());
                assert forall|other: AnimationGroupID| #[trigger]
                    old(self).groups().contains_key(other) implies self.groups()[other]
                    == spec_debugged(
                    old(self).groups()[other],
                    spec_among(keys@, i + 1, other),
                    flag,
                ) by {
                    if other == id {
                        assert(keys@[i as int] == other);
                        if spec_among(keys@, i as int, other) {
                            let k = choose|k: int| 0 <= k < i && k < keys@.len() && keys@[k] == other;
                            assert(keys@[k] == keys@[i as int]);
                        }
                    } else if spec_among(keys@, i + 1, other) {
                        let k = choose|k: int| 0 <= k < i + 1 && k < keys@.len() && keys@[k] == other;
                        assert(k < i);
                    }
                }
            }
            i = i + 1;
        }
        proof {
            assert forall|id: AnimationGroupID| #[trigger]
                old(self).groups().contains_key(id) implies (spec_among(keys@, i as int, id)
                <==> old(self).infos().contains_key(id)) by {
                if keys@.contains(id) {
                    let k = choose|k: int| 0 <= k < keys@.len() && keys@[k] == id;
                    assert(spec_among(keys@, i as int, id));
                }
            }
        }
    }

    /// Makes a group, with a record that says that it has never run.
    pub fn create_animation_group(&mut self) -> (id: AnimationGroupID)
        requires
            old(self).has_room(),
        ensures
            !old(self).groups().contains_key(id),
            !id.spec_is_null(),
            final(self).groups() == old(self).groups().insert(
                id,
                GroupView {
                    state: GroupState { id, ..GroupState::spec_new() },
                    animations: Seq::empty(),
                },
            ),
            final(self).infos() == spec_offered(
                old(self).infos(),
                id,
                AnimationGroupRuntimeInfo::spec_idle(),
            ),
            final(self).time_scale == old(self).time_scale,
            final(self).group_events == old(self).group_events,
            final(self).removed_animations == old(self).removed_animations,
    {
        let id: AnimationGroupID = self.group_mgr.create();
        self.group_infos.insert(id, AnimationGroupRuntimeInfo::idle());
        proof {
            let made = GroupView {
                state: GroupState { id, ..GroupState::spec_new() },
                animations: Seq::empty(),
            };
            assert(self.group_mgr.groups()[id]@.animations =~= made.animations);
            assert(self.groups() =~= old(self).groups().insert(id, made));
        }
        id
    }

    /// Makes a group if one more can be made, and changes nothing if not.
    pub fn try_create_animation_group(&mut self) -> (r: Option<AnimationGroupID>)
        ensures
            r is Some == old(self).has_room(),
            r is None ==> final(self).groups() == old(self).groups(),
            r is None ==> final(self).infos() == old(self).infos(),
            r matches Some(id) ==> {
                &&& !old(self).groups().contains_key(id)
                &&& !id.spec_is_null()
                &&& final(self).groups() == old(self).groups().insert(
                    id,
                    GroupView {
                        state: GroupState { id, ..GroupState::spec_new() },
                        animations: Seq::empty(),
                    },
                )
                &&& final(self).infos() == spec_offered(
                    old(self).infos(),
                    id,
                    AnimationGroupRuntimeInfo::spec_idle(),
                )
            },
            final(self).time_scale == old(self).time_scale,
            final(self).group_events == old(self).group_events,
            final(self).removed_animations == old(self).removed_animations,
    {
        match self.group_mgr.try_create() {
            Some(id) => {
                self.group_infos.insert(id, AnimationGroupRuntimeInfo::idle());
                proof {
                    let made = GroupView {
                        state: GroupState { id, ..GroupState::spec_new() },
                        animations: Seq::empty(),
                    };
                    assert(self.group_mgr.groups()[id]@.animations =~= made.animations);
                    assert(self.groups() =~= old(self).groups().insert(id, made));
                }
                Some(id)
            },
            None => None,
        }
    }

    /// A group, to read it.
    pub fn animation_group(&self, id: AnimationGroupID) -> (r: Option<&AnimationGroup>)
        ensures
            r is Some == self.groups().contains_key(id),
            r matches Some(group) ==> group@ == self.groups()[id],
    {
        self.group_mgr.get(id)
    }

    /// Sets the blend weight of a group. Does nothing if there is no such
    /// group.
    pub fn animation_group_weight(&mut self, id: AnimationGroupID, weight: Fixed)
        ensures
            final(self).groups() == if old(self).groups().contains_key(id) {
                old(self).groups().insert(
                    id,
                    GroupView {
                        state: GroupState { blend_weight: weight, ..old(self).groups()[id].state },
                        animations: old(self).groups()[id].animations,
                    },
                )
            } else {
                old(self).groups()
            },
            final(self).infos() == old(self).infos(),
            final(self).time_scale == old(self).time_scale,
            final(self).group_events == old(self).group_events,
            final(self).removed_animations == old(self).removed_animations,
    {
        match self.group_mgr.get_mut(id) {
            Some(group) => {
                group.set_blend_weight(weight);
            },
            None => {},
        }
        proof {
            if old(self).groups().contains_key(id) {
                assert(self.groups() =~= old(self).groups().insert(
                    id,
                    GroupView {
                        state: GroupState { blend_weight: weight, ..old(self).groups()[id].state },
                        animations: old(self).groups()[id].animations,
                    },
                ));
            } else {
                assert(self.groups() =~= old(self).groups());
            }
        }
    }

    /// The groups and the records after a group was deleted: the group is
    /// gone, and its record, if it has one, is cleared.
    pub open spec fn spec_deleted(
        groups: Map<AnimationGroupID, GroupView>,
        infos: Map<AnimationGroupID, AnimationGroupRuntimeInfo>,
        id: AnimationGroupID,
    ) -> (Map<AnimationGroupID, GroupView>, Map<AnimationGroupID, AnimationGroupRuntimeInfo>) {
        (
            groups.remove(id),
            if infos.contains_key(id) {
                infos.insert(id, spec_stopped_info(infos[id]))
            } else {
                infos
            },
        )
    }

    /// The animations that deleting a group sets free: those of the group,
    /// if there is such a group.
    pub open spec fn spec_orphans(
        groups: Map<AnimationGroupID, GroupView>,
        id: AnimationGroupID,
    ) -> Seq<AnimationInfo> {
        if groups.contains_key(id) {
            groups[id].animations.map_values(|one: TargetAnimation| one.animation)
        } else {
            Seq::empty()
        }
    }

    fn detach_group(&mut self, id: AnimationGroupID) -> (r: Vec<AnimationInfo>)
        ensures
            (final(self).groups(), final(self).infos()) == Self::spec_deleted(
                old(self).groups(),
                old(self).infos(),
                id,
            ),
            r@ == Self::spec_orphans(old(self).groups(), id),
            final(self).order() == old(self).order(),
            final(self).time_scale == old(self).time_scale,
            final(self).group_events == old(self).group_events,
            final(self).removed_animations == old(self).removed_animations,
    {
        self.group_infos.set(id, stopped_info());
        let orphans: Vec<AnimationInfo> = self.group_mgr.del(id);
        proof {
            assert(self.groups() =~= old(self).groups().remove(id));
        }
        orphans
    }

    /// Deletes a group and hands each of its animations to the host's
    /// store of curves.
    pub fn remove_animation_group<AM: AnimationContextMgr>(
        &mut self,
        id: AnimationGroupID,
        mgr: &mut AM,
    )
        ensures
            (final(self).groups(), final(self).infos()) == Self::spec_deleted(
                old(self).groups(),
                old(self).infos(),
                id,
            ),
            final(self).time_scale == old(self).time_scale,
            final(self).group_events == old(self).group_events,
            final(self).removed_animations == old(self).removed_animations,
    {
        let orphans: Vec<AnimationInfo> = self.detach_group(id);
        let mut i: usize = 0;
        while i < orphans.len()
            invariant
                i <= orphans@.len(),
            decreases orphans@.len() - i,
        {
            mgr.remove_curve(&orphans[i]);
            i = i + 1;
        }
    }

    /// Deletes a group. Its animations are put behind the removed
    /// animations, whose curves wait for `apply_removed_animations`.
    pub fn del_animation_group(&mut self, id: AnimationGroupID)
        ensures
            (final(self).groups(), final(self).infos()) == Self::spec_deleted(
                old(self).groups(),
                old(self).infos(),
                id,
            ),
            final(self).removed_animations@ == old(self).removed_animations@ + Self::spec_orphans(
                old(self).groups(),
                id,
            ),
            final(self).time_scale == old(self).time_scale,
            final(self).group_events == old(self).group_events,
    {
        let mut orphans: Vec<AnimationInfo> = self.detach_group(id);
        self.removed_animations.append(&mut orphans);
    }

    /// Removes, from the context of a value type, the curves of the removed
    /// animations of that type. The removed animations stay on record.
    pub fn apply_removed_animations<D>(&self, typectx: &mut TypeAnimationContext<D>)
        requires
            old(typectx).wf(),
        ensures
            final(typectx).wf(),
            final(typectx)@ == old(typectx)@.remove_all(self.removed_animations@),
    {
        typectx.remove(&self.removed_animations);
    }

    /// Forgets the removed animations.
    pub fn clear_removed_animations(&mut self)
        ensures
            final(self).removed_animations@.len() == 0,
            final(self).groups() == old(self).groups(),
            final(self).infos() == old(self).infos(),
            final(self).time_scale == old(self).time_scale,
            final(self).group_events == old(self).group_events,
    {
        self.removed_animations.clear();
    }

    /// Takes a curve into the context of its value type and adds the
    /// animation that drives attribute 0 of a target with it to a group.
    /// Fails, and takes no curve, if there is no such group.
    pub fn add_target_animation<D>(
        &mut self,
        type_ctx: &mut TypeAnimationContext<D>,
        curve_info: FrameCurveInfo,
        curve: D,
        group_id: AnimationGroupID,
        target: IDAnimatableTarget,
    ) -> (r: Result<(), EAnimationError>)
        requires
            old(type_ctx).wf(),
        ensures
            final(type_ctx).wf(),
            final(self).infos() == old(self).infos(),
            final(self).time_scale == old(self).time_scale,
            final(self).group_events == old(self).group_events,
            final(self).removed_animations == old(self).removed_animations,
            !old(self).groups().contains_key(group_id) ==> {
                &&& r == Err::<(), EAnimationError>(EAnimationError::AnimationGroupNotFound)
                &&& final(self).groups() == old(self).groups()
                &&& final(type_ctx)@ == old(type_ctx)@
            },
            old(self).groups().contains_key(group_id) ==> {
                &&& r == Ok::<(), EAnimationError>(())
                &&& final(type_ctx)@ == old(type_ctx)@.create(curve)
                &&& final(self).groups() == Self::spec_added(
                    old(self).groups(),
                    group_id,
                    TargetAnimation {
                        target,
                        animation: AnimationInfo {
                            attr: 0,
                            ty: old(type_ctx)@.ty,
                            curve_info,
                            curve_id: old(type_ctx)@.next_slot(),
                        },
                    },
                )
            },
    {
        match self.group_mgr.get_mut(group_id) {
            Some(group) => {
                let animation: AnimationInfo = type_ctx.create_animation(0, curve_info, curve);
                let r = group.add_target_animation(TargetAnimation { target, animation });
                proof {
                    assert(self.groups() =~= Self::spec_added(
                        old(self).groups(),
                        group_id,
                        TargetAnimation { target, animation },
                    ));
                }
                r
            },
            None => {
                proof {
                    assert(self.groups() =~= old(self).groups());
                }
                Err(EAnimationError::AnimationGroupNotFound)
            },
        }
    }

    /// The groups after an animation was added to one of them: the group
    /// has the animation behind its others, and is at least as long as the
    /// curve of the animation is on the reference clock.
    pub open spec fn spec_added(
        groups: Map<AnimationGroupID, GroupView>,
        id: AnimationGroupID,
        one: TargetAnimation,
    ) -> Map<AnimationGroupID, GroupView> {
        groups.insert(
            id,
            GroupView {
                state: GroupState {
                    max_frame: if groups[id].state.max_frame
                        >= one.animation.spec_max_frame_for_running_speed(BASE_FPS as int) {
                        groups[id].state.max_frame
                    } else {
                        one.animation.spec_max_frame_for_running_speed(BASE_FPS as int) as Fixed
                    },
                    ..groups[id].state
                },
                animations: groups[id].animations.push(one),
            },
        )
    }

    /// Adds an animation of a target to a group. Fails if there is no such
    /// group.
    pub fn add_target_animation_notype(
        &mut self,
        animation: AnimationInfo,
        group_id: AnimationGroupID,
        target: IDAnimatableTarget,
    ) -> (r: Result<(), EAnimationError>)
        ensures
            final(self).infos() == old(self).infos(),
            final(self).time_scale == old(self).time_scale,
            final(self).group_events == old(self).group_events,
            final(self).removed_animations == old(self).removed_animations,
            !old(self).groups().contains_key(group_id) ==> {
                &&& r == Err::<(), EAnimationError>(EAnimationError::AnimationGroupNotFound)
                &&& final(self).groups() == old(self).groups()
            },
            old(self).groups().contains_key(group_id) ==> {
                &&& r == Ok::<(), EAnimationError>(())
                &&& final(self).groups() == Self::spec_added(
                    old(self).groups(),
                    group_id,
                    TargetAnimation { target, animation },
                )
            },
    {
        match self.group_mgr.get_mut(group_id) {
            Some(group) => {
                let r = group.add_target_animation(TargetAnimation { target, animation });
                proof {
                    assert(self.groups() =~= Self::spec_added(
                        old(self).groups(),
                        group_id,
                        TargetAnimation { target, animation },
                    ));
                }
                r
            },
            None => {
                proof {
                    assert(self.groups() =~= old(self).groups());
                }
                Err(EAnimationError::AnimationGroupNotFound)
            },
        }
    }

    /// Forces the total number of frames of a group, or lets its longest
    /// curve decide again. Fails if there is no such group.
    pub fn force_group_total_frames(
        &mut self,
        id: AnimationGroupID,
        total_frames: Option<Fixed>,
        design_frame_per_second: FramePerSecond,
    ) -> (r: Result<(), EAnimationError>)
        ensures
            final(self).infos() == old(self).infos(),
            final(self).time_scale == old(self).time_scale,
            final(self).group_events == old(self).group_events,
            final(self).removed_animations == old(self).removed_animations,
            !old(self).groups().contains_key(id) ==> {
                &&& r == Err::<(), EAnimationError>(EAnimationError::AnimationGroupNotFound)
                &&& final(self).groups() == old(self).groups()
            },
            old(self).groups().contains_key(id) ==> {
                &&& r == Ok::<(), EAnimationError>(())
                &&& final(self).groups() == old(self).groups().insert(
                    id,
                    GroupView {
                        state: GroupState {
                            force_max_frame: match total_frames {
                                Some(count) => if design_frame_per_second != 0 {
                                    Some(
                                        scaled(
                                            count as int,
                                            BASE_FPS as int,
                                            design_frame_per_second as int,
                                        ) as Fixed,
                                    )
                                } else {
                                    None
                                },
                                None => None,
                            },
                            ..old(self).groups()[id].state
                        },
                        animations: old(self).groups()[id].animations,
                    },
                )
            },
    {
        match self.group_mgr.get_mut(id) {
            Some(group) => {
                group.force_total_frame(design_frame_per_second, total_frames);
                proof {
                    assert(self.groups().dom() =~= old(self).groups().dom());
                    assert(self.groups() =~= old(self).groups().insert(id, self.groups()[id]));
                }
                Ok(())
            },
            None => {
                proof {
                    assert(self.groups() =~= old(self).groups());
                }
                Err(EAnimationError::AnimationGroupNotFound)
            },
        }
    }

    /// The record that a start of a group works on: the record of the
    /// group, or that of a group that has never run if it has none.
    fn record_of(&self, id: AnimationGroupID) -> (r: AnimationGroupRuntimeInfo)
        ensures
            r == if self.infos().contains_key(id) {
                self.infos()[id]
            } else {
                AnimationGroupRuntimeInfo::spec_idle()
            },
    {
        match self.group_infos.get(id) {
            Some(info) => info,
            None => AnimationGroupRuntimeInfo::idle(),
        }
    }

    /// Starts a group over its whole length; see
    /// `AnimationGroup::start_complete`. Fails as not found if there is no
    /// such group, as started if the group is playing, and on a frame rate of
    /// zero; a start that fails changes nothing.
    pub fn start_complete(
        &mut self,
        id: AnimationGroupID,
        seconds: Fixed,
        loop_mode: ELoopMode,
        frame_per_second: FramePerSecond,
        amount_calc: AnimationAmountCalc,
        delay_time_ms: TimeMS,
        fillmode: EFillMode,
    ) -> (r: Result<(), EAnimationError>)
        ensures
            final(self).time_scale == old(self).time_scale,
            final(self).group_events == old(self).group_events,
            final(self).removed_animations == old(self).removed_animations,
            final(self).order() == old(self).order(),
            spec_start_met(
                old(self).groups(),
                old(self).infos(),
                id,
                spec_complete_options(
                    old(self).groups()[id].state,
                    seconds,
                    loop_mode,
                    frame_per_second,
                    amount_calc,
                    delay_time_ms,
                    fillmode,
                ),
                r,
                final(self).groups(),
                final(self).infos(),
            ),
    {
        let mut info: AnimationGroupRuntimeInfo = self.record_of(id);
        let r: Result<(), EAnimationError> = match self.group_mgr.get_mut(id) {
            Some(group) => group.start_complete(
                seconds,
                loop_mode,
                frame_per_second,
                amount_calc,
                &mut info,
                delay_time_ms,
                fillmode,
            ),
            None => Err(EAnimationError::AnimationGroupNotFound),
        };
        match r {
            Ok(_) => {
                self.group_infos.set(id, info);
            },
            Err(_) => {},
        }
        proof {
            if old(self).groups().contains_key(id) {
                let options = spec_complete_options(
                    old(self).groups()[id].state,
                    seconds,
                    loop_mode,
                    frame_per_second,
                    amount_calc,
                    delay_time_ms,
                    fillmode,
                );
                assert(self.groups() =~= spec_started_groups(old(self).groups(), id, options));
            } else {
                assert(self.groups() =~= old(self).groups());
            }
        }
        r
    }

    /// Starts a group between two fractions of its length; see
    /// `AnimationGroup::start_with_progress`. Fails as `start_complete`
    /// does.
    pub fn start_with_progress(
        &mut self,
        id: AnimationGroupID,
        speed: Fixed,
        loop_mode: ELoopMode,
        from: Fixed,
        to: Fixed,
        frame_per_second: FramePerSecond,
        amount_calc: AnimationAmountCalc,
        delay_time_ms: TimeMS,
        fillmode: EFillMode,
    ) -> (r: Result<(), EAnimationError>)
        ensures
            final(self).time_scale == old(self).time_scale,
            final(self).group_events == old(self).group_events,
            final(self).removed_animations == old(self).removed_animations,
            final(self).order() == old(self).order(),
            spec_start_met(
                old(self).groups(),
                old(self).infos(),
                id,
                spec_progress_options(
                    old(self).groups()[id].state,
                    speed,
                    loop_mode,
                    from,
                    to,
                    frame_per_second,
                    amount_calc,
                    delay_time_ms,
                    fillmode,
                ),
                r,
                final(self).groups(),
                final(self).infos(),
            ),
    {
        let mut info: AnimationGroupRuntimeInfo = self.record_of(id);
        let r: Result<(), EAnimationError> = match self.group_mgr.get_mut(id) {
            Some(group) => group.start_with_progress(
                speed,
                loop_mode,
                from,
                to,
                frame_per_second,
                &mut info,
                amount_calc,
                delay_time_ms,
                fillmode,
            ),
            None => Err(EAnimationError::AnimationGroupNotFound),
        };
        match r {
            Ok(_) => {
                self.group_infos.set(id, info);
            },
            Err(_) => {},
        }
        proof {
            if old(self).groups().contains_key(id) {
                let options = spec_progress_options(
                    old(self).groups()[id].state,
                    speed,
                    loop_mode,
                    from,
                    to,
                    frame_per_second,
                    amount_calc,
                    delay_time_ms,
                    fillmode,
                );
                assert(self.groups() =~= spec_started_groups(old(self).groups(), id, options));
            } else {
                assert(self.groups() =~= old(self).groups());
            }
        }
        r
    }

    /// Starts a group between two frames; see `AnimationGroup::start`. Fails
    /// as `start_complete` does.
    pub fn start(
        &mut self,
        id: AnimationGroupID,
        speed: Fixed,
        loop_mode: ELoopMode,
        from: Fixed,
        to: Fixed,
        frame_per_second: FramePerSecond,
        amount_calc: AnimationAmountCalc,
        delay_time_ms: TimeMS,
        fillmode: EFillMode,
    ) -> (r: Result<(), EAnimationError>)
        ensures
            final(self).time_scale == old(self).time_scale,
            final(self).group_events == old(self).group_events,
            final(self).removed_animations == old(self).removed_animations,
            final(self).order() == old(self).order(),
            spec_start_met(
                old(self).groups(),
                old(self).infos(),
                id,
                StartOptions {
                    speed,
                    loop_mode,
                    from,
                    to,
                    frame_per_second,
                    amount_calc_between_frame: amount_calc,
                    delay_time_ms,
                    fill_mode: fillmode,
                },
                r,
                final(self).groups(),
                final(self).infos(),
            ),
    {
        let mut info: AnimationGroupRuntimeInfo = self.record_of(id);
        let r: Result<(), EAnimationError> = match self.group_mgr.get_mut(id) {
            Some(group) => group.start(
                speed,
                loop_mode,
                from,
                to,
                frame_per_second,
                &mut info,
                amount_calc,
                delay_time_ms,
                fillmode,
            ),
            None => Err(EAnimationError::AnimationGroupNotFound),
        };
        match r {
            Ok(_) => {
                self.group_infos.set(id, info);
            },
            Err(_) => {},
        }
        proof {
            if old(self).groups().contains_key(id) {
                let options = StartOptions {
                    speed,
                    loop_mode,
                    from,
                    to,
                    frame_per_second,
                    amount_calc_between_frame: amount_calc,
                    delay_time_ms,
                    fill_mode: fillmode,
                };
                assert(self.groups() =~= spec_started_groups(old(self).groups(), id, options));
            } else {
                assert(self.groups() =~= old(self).groups());
            }
        }
        r
    }

    /// Halts a group that is playing, and says whether there was one.
    fn halt(&mut self, id: AnimationGroupID) -> (r: Result<(), EAnimationError>)
        ensures
            r == spec_halt_result(old(self).groups(), id),
            final(self).groups() == spec_halted_groups(old(self).groups(), id),
            final(self).group_infos == old(self).group_infos,
            final(self).time_scale == old(self).time_scale,
            final(self).group_events == old(self).group_events,
            final(self).removed_animations == old(self).removed_animations,
    {
        let r: Result<(), EAnimationError> = match self.group_mgr.get_mut(id) {
            Some(group) => {
                if group.get_state().is_playing {
                    group.stop();
                    Ok(())
                } else {
                    Err(EAnimationError::AnimationGroupNotPlaying)
                }
            },
            None => Err(EAnimationError::AnimationGroupNotFound),
        };
        proof {
            assert(self.groups() =~= spec_halted_groups(old(self).groups(), id));
        }
        r
    }

    /// Pauses a group: the group no longer plays, and its record says so;
    /// what the run has reached stays in the group and in its record. Fails
    /// as not found if there is no such group, and as not playing if the
    /// group does not play; a pause that fails changes nothing.
    pub fn pause(&mut self, id: AnimationGroupID) -> (r: Result<(), EAnimationError>)
        ensures
            r == spec_halt_result(old(self).groups(), id),
            final(self).groups() == spec_halted_groups(old(self).groups(), id),
            final(self).infos() == spec_halted_infos(
                old(self).groups(),
                old(self).infos(),
                id,
                AnimationGroupRuntimeInfo { is_playing: false, ..old(self).infos()[id] },
            ),
            final(self).order() == old(self).order(),
            final(self).time_scale == old(self).time_scale,
            final(self).group_events == old(self).group_events,
            final(self).removed_animations == old(self).removed_animations,
    {
        let r: Result<(), EAnimationError> = self.halt(id);
        match r {
            Ok(_) => {
                let mut info: AnimationGroupRuntimeInfo = self.record_of(id);
                info.is_playing = false;
                self.group_infos.set(id, info);
            },
            Err(_) => {},
        }
        r
    }

    /// Stops a group: the group no longer plays, and its record is cleared.
    /// Fails as not found if there is no such group, and as not playing if
    /// the group does not play; a stop that fails changes nothing.
    pub fn stop(&mut self, id: AnimationGroupID) -> (r: Result<(), EAnimationError>)
        ensures
            r == spec_halt_result(old(self).groups(), id),
            final(self).groups() == spec_halted_groups(old(self).groups(), id),
            final(self).infos() == spec_halted_infos(
                old(self).groups(),
                old(self).infos(),
                id,
                spec_stopped_info(old(self).infos()[id]),
            ),
            final(self).order() == old(self).order(),
            final(self).time_scale == old(self).time_scale,
            final(self).group_events == old(self).group_events,
            final(self).removed_animations == old(self).removed_animations,
    {
        let r: Result<(), EAnimationError> = self.halt(id);
        match r {
            Ok(_) => {
                self.group_infos.set(id, stopped_info());
            },
            Err(_) => {},
        }
        r
    }

    /// The state that a tick works on.
    pub open spec fn spec_tick_state(&self, staged: Seq<StagedInfos>) -> TickState {
        TickState {
            groups: self.groups(),
            infos: self.infos(),
            events: self.group_events@,
            staged,
        }
    }

    /// Advances every group by a tick of `delta_ms` whole milliseconds,
    /// scaled by the time scale. The groups are visited in the order of
    /// their records, which holds each key that has a record once, by slot;
    /// each group whose record says that it is playing advances, stages its
    /// evaluations in `runtime_infos` and tells its events, which are
    /// gathered in `group_events` in place of those of the last tick.
    pub fn anime_curve_calc(&mut self, delta_ms: u64, runtime_infos: &mut RuntimeInfoMap)
        requires
            old(runtime_infos).wf(),
        ensures
            final(runtime_infos).wf(),
            final(self).time_scale == old(self).time_scale,
            final(self).removed_animations == old(self).removed_animations,
            final(self).order() == old(self).order(),
            spec_by_slot(final(self).order()),
            final(self).order().no_duplicates(),
            forall|id: AnimationGroupID|
                final(self).order().contains(id) <==> old(self).infos().contains_key(id),
            final(self).spec_tick_state(final(runtime_infos)@) == spec_tick_first(
                TickState {
                    groups: old(self).groups(),
                    infos: old(self).infos(),
                    events: Seq::empty(),
                    staged: old(runtime_infos)@,
                },
                old(self).order(),
                spec_scaled_delta(delta_ms, old(self).time_scale),
                old(self).order().len(),
            ),
    {
        self.group_events.clear();
        let delta: Fixed = mul_div(delta_ms, self.time_scale, 1);
        let keys: Vec<AnimationGroupID> = self.group_infos.keys();
        let ghost start = TickState {
            groups: old(self).groups(),
            infos: old(self).infos(),
            events: Seq::empty(),
            staged: old(runtime_infos)@,
        };
        let mut i: usize = 0;
        proof {
            assert(self.spec_tick_state(runtime_infos@) =~= start);
        }
        while i < keys.len()
            invariant
                i <= keys@.len(),
                keys@ == old(self).order(),
                self.order() == old(self).order(),
                forall|id: AnimationGroupID| keys@.contains(id) <==> self.infos().contains_key(id),
                runtime_infos.wf(),
                self.time_scale == old(self).time_scale,
                self.removed_animations == old(self).removed_animations,
                delta == spec_scaled_delta(delta_ms, old(self).time_scale),
                self.spec_tick_state(runtime_infos@) == spec_tick_first(
                    start,
                    keys@,
                    delta,
                    i as nat,
                ),
            decreases keys@.len() - i,
        {
            let id: AnimationGroupID = keys[i];
            let ghost before = self.spec_tick_state(runtime_infos@);
            proof {
                assert(keys@.contains(id));
            }
            match self.group_infos.get(id) {
                Some(found) => {
                    let mut info: AnimationGroupRuntimeInfo = found;
                    info.start_event = false;
                    info.end_event = false;
                    info.loop_event = false;
                    info.last_amount_in_second = info.amount_in_second;
                    if info.is_playing {
                        match self.group_mgr.get_mut(id) {
                            Some(group) => {
                                group.anime(runtime_infos, delta, &mut info);
                            },
                            None => {},
                        }
                    }
                    let ghost events = self.group_events@;
                    if info.start_event {
                        self.group_events.push((id, EAnimationEvent::Start, info.looped_count));
                    }
                    if info.end_event {
                        self.group_events.push((id, EAnimationEvent::End, info.looped_count));
                    }
                    if info.loop_event {
                        self.group_events.push((id, EAnimationEvent::Loop, info.looped_count));
                    }
                    self.group_infos.set(id, info);
                    proof {
                        let after = spec_tick_one(before, id, delta);
                        assert(self.group_events@ =~= events + spec_events_of(id, info));
                        assert(self.groups() =~= after.groups);
                        assert(self.infos() =~= after.infos);
                        assert(self.group_events@ =~= after.events);
                        assert forall|other: AnimationGroupID|
                            keys@.contains(other) <==> self.infos().contains_key(other) by {}
                    }
                },
                None => {},
            }
            i = i + 1;
        }
    }

    /// Tells a listener what happened to its group in the last tick: the
    /// start, end and loop callbacks are called if the record of the group
    /// tells of the event, and the frame-event callbacks are called with the
    /// payloads that the sampling position passed over, if a schedule is
    /// given and there are any.
    pub fn animation_event<S, E, L, F, D: Clone>(
        &self,
        listener: &mut AnimationListener<S, E, L, F>,
        curve_frame_event: Option<&CurveFrameEvent<D>>,
    ) where
        S: Fn() -> ListenResult,
        E: Fn() -> ListenResult,
        L: Fn(u32) -> ListenResult,
        F: Fn(Vec<D>) -> ListenResult,

        requires
            curve_frame_event matches Some(schedule) ==> schedule.wf(),
            forall|i: int| 0 <= i < old(listener).on_start@.len() ==> call_requires(
                #[trigger] old(listener).on_start@[i],
                (),
            ),
            forall|i: int| 0 <= i < old(listener).on_end@.len() ==> call_requires(
                #[trigger] old(listener).on_end@[i],
                (),
            ),
            forall|i: int, count: u32|
                0 <= i < old(listener).on_loop@.len() ==> #[trigger] call_requires(
                    old(listener).on_loop@[i],
                    (count,),
                ),
            forall|i: int, datas: Vec<D>|
                0 <= i < old(listener).on_frame_event@.len() ==> #[trigger] call_requires(
                    old(listener).on_frame_event@[i],
                    (datas,),
                ),
        ensures
            final(listener).group == old(listener).group,
            !self.infos().contains_key(old(listener).group) ==> *final(listener) == *old(listener),
            self.infos().contains_key(old(listener).group) ==> {
                let info = self.infos()[old(listener).group];
                &&& if info.start_event {
                    spec_notified(old(listener).on_start@, final(listener).on_start@)
                } else {
                    final(listener).on_start == old(listener).on_start
                }
                &&& if info.end_event {
                    spec_notified(old(listener).on_end@, final(listener).on_end@)
                } else {
                    final(listener).on_end == old(listener).on_end
                }
                &&& if info.loop_event {
                    spec_notified_loop(
                        old(listener).on_loop@,
                        final(listener).on_loop@,
                        info.looped_count,
                    )
                } else {
                    final(listener).on_loop == old(listener).on_loop
                }
                &&& match curve_frame_event {
                    Some(schedule) => if schedule.spec_passed(
                        info.last_amount_in_second,
                        info.amount_in_second,
                    ) {
                        exists|found: Vec<D>|
                            schedule.spec_found(
                                info.last_amount_in_second,
                                info.amount_in_second,
                                found,
                            ) && spec_notified_frames(
                                old(listener).on_frame_event@,
                                final(listener).on_frame_event@,
                                found,
                            )
                    } else {
                        final(listener).on_frame_event == old(listener).on_frame_event
                    },
                    None => final(listener).on_frame_event == old(listener).on_frame_event,
                }
            },
    {
        match self.group_infos.get(listener.group) {
            Some(group_info) => {
                if group_info.start_event {
                    listener.on_start();
                }
                if group_info.end_event {
                    listener.on_end();
                }
                if group_info.loop_event {
                    listener.on_loop(group_info.looped_count);
                }
                match curve_frame_event {
                    Some(frame_event) => {
                        match frame_event.query(
                            group_info.last_amount_in_second,
                            group_info.amount_in_second,
                        ) {
                            Some(eventdatas) => {
                                listener.on_frame(eventdatas);
                            },
                            None => {},
                        }
                    },
                    None => {},
                }
            },
            None => {},
        }
    }
}

fn stopped_info() -> (r: AnimationGroupRuntimeInfo)
    ensures
        forall|info: AnimationGroupRuntimeInfo| r == #[trigger] spec_stopped_info(info),
{
    AnimationGroupRuntimeInfo {
        is_playing: false,
        amount_in_second: 0,
        last_amount_in_second: 0,
        looped_count: 0,
        start_event: false,
        end_event: false,
        loop_event: false,
    }
}

/// A group with its debug flag set, if it is `touched`; else the group as
/// it is.
pub open spec fn spec_debugged(group: GroupView, touched: bool, flag: bool) -> GroupView {
    if touched {
        GroupView { state: GroupState { debug: flag, ..group.state }, animations: group.animations }
    } else {
        group
    }
}

/// Whether a key is among the first `count` of the keys.
pub open spec fn spec_among(keys: Seq<AnimationGroupID>, count: int, id: AnimationGroupID) -> bool {
    exists|k: int| 0 <= k < count && k < keys.len() && keys[k] == id
}

/// The attributes of the context that can themselves be animated.
#[derive(Debug, Clone, Copy, PartialEq, Eq, Structural)]
pub enum AnimationContextAmountAnimatableAttrSet {
    TimeScale,
}

impl AnimationContextAmountAnimatableAttrSet {
    /// The number of the attribute.
    pub fn attr(self) -> (r: IDAnimatableAttr)
        ensures
            r == 0,
    {
        match self {
            AnimationContextAmountAnimatableAttrSet::TimeScale => 0,
        }
    }
}

impl<M: AnimationGroupManager> TAnimatableTargetModifier<Fixed> for AnimationContextAmount<M> {
    /// Attribute 0 is the time scale; any other attribute is ignored.
    fn anime_modify(&mut self, attr: IDAnimatableAttr, value: Fixed) -> (r: Result<
        (),
        EAnimationError,
    >)
        ensures
            r == Ok::<(), EAnimationError>(()),
            final(self).time_scale == if attr == 0 {
                value
            } else {
                old(self).time_scale
            },
            final(self).groups() == old(self).groups(),
            final(self).infos() == old(self).infos(),
            final(self).group_events == old(self).group_events,
            final(self).removed_animations == old(self).removed_animations,
    {
        if attr == AnimationContextAmountAnimatableAttrSet::TimeScale.attr() {
            self.time_scale = value;
        }
        Ok(())
    }
}

/// Picks the slot of a new curve: the slot freed last, or `len`, the slot
/// behind the others.
fn _create_animation(
    ty: KeyFrameDataType,
    id_pool: &mut Vec<FrameCurveInfoID>,
    curve_info: FrameCurveInfo,
    attr: IDAnimatableAttr,
    len: usize,
) -> (r: (AnimationInfo, usize))
    requires
        forall|i: int| 0 <= i < old(id_pool)@.len() ==> (#[trigger] old(id_pool)@[i]) < len,
    ensures
        r.1 == if old(id_pool)@.len() > 0 {
            old(id_pool)@.last()
        } else {
            len
        },
        r.1 <= len,
        old(id_pool)@.len() > 0 ==> r.1 < len,
        final(id_pool)@ == if old(id_pool)@.len() > 0 {
            old(id_pool)@.drop_last()
        } else {
            old(id_pool)@
        },
        r.0 == (AnimationInfo { attr, ty, curve_info, curve_id: r.1 }),
{
    match id_pool.pop() {
        Some(index) => {
            let result = AnimationInfo { attr, ty, curve_info, curve_id: index };
            (result, index)
        },
        None => {
            let result = AnimationInfo { attr, ty, curve_info, curve_id: len };
            (result, len)
        },
    }
}

} // verus!
