use vstd::prelude::*;
use pi_hash::XHashMap;
use crate::amount::AnimationAmountCalc;
use crate::base::{Fixed, KeyFrameDataType};
use crate::error::EAnimationError;
use crate::frame_curve_manager::FrameCurveInfoID;
use crate::target_modifier::{IDAnimatableAttr, IDAnimatableTarget};

verus! {

/// One curve evaluation that a group has staged for this tick.
#[derive(Debug, Clone, Copy, PartialEq, Eq)]
pub struct RuntimeInfo {
    /// The blend weight of the group.
    pub group_weight: Fixed,
    /// Where to sample the curve, in seconds of the 60 fps reference clock.
    pub amount_in_second: Fixed,
    /// The attribute of the target that the value is for.
    pub attr: IDAnimatableAttr,
    /// The slot of the curve in the context of its value type.
    pub curve_id: FrameCurveInfoID,
    /// The shaper that the curve applies between two key frames.
    pub amount_calc: AnimationAmountCalc,
}

/// What is staged for one value type: the targets in the order in which
/// they were first staged, and for each target its evaluations in the order
/// in which they were staged.
pub struct StagedInfos {
    pub targets: Seq<IDAnimatableTarget>,
    pub infos: Map<IDAnimatableTarget, Seq<RuntimeInfo>>,
}

impl StagedInfos {
    /// Nothing staged.
    pub open spec fn empty() -> StagedInfos {
        StagedInfos { targets: Seq::empty(), infos: Map::empty() }
    }

    /// Every target is listed once, and exactly the listed targets have
    /// evaluations.
    pub open spec fn wf(self) -> bool {
        &&& self.targets.no_duplicates()
        &&& forall|target: IDAnimatableTarget|
            self.targets.contains(target) <==> self.infos.contains_key(target)
    }

    /// The evaluations staged for a target; none if it was never staged.
    pub open spec fn of(self, target: IDAnimatableTarget) -> Seq<RuntimeInfo> {
        if self.infos.contains_key(target) {
            self.infos[target]
        } else {
            Seq::empty()
        }
    }

    /// One more evaluation for a target: appended to the target's list, and
    /// the target appended to the order if it is new.
    pub open spec fn insert(self, target: IDAnimatableTarget, info: RuntimeInfo) -> StagedInfos {
        if self.infos.contains_key(target) {
            StagedInfos {
                targets: self.targets,
                infos: self.infos.insert(target, self.infos[target].push(info)),
            }
        } else {
            StagedInfos {
                targets: self.targets.push(target),
                infos: self.infos.insert(target, seq![info]),
            }
        }
    }

    /// Staging keeps the lists well formed.
    pub proof fn lemma_insert_wf(self, target: IDAnimatableTarget, info: RuntimeInfo)
        requires
            self.wf(),
        ensures
            self.insert(target, info).wf(),
            self.insert(target, info).of(target) == self.of(target).push(info),
            forall|other: IDAnimatableTarget|
                other != target ==> self.insert(target, info).of(other) == self.of(other),
    {
        let after = self.insert(target, info);
        if !self.infos.contains_key(target) {
            assert(!self.targets.contains(target));
            assert forall|i: int, j: int| 0 <= i < j < after.targets.len() implies after.targets[i]
                != after.targets[j] by {
                assert(self.targets.contains(self.targets[i]));
            }
            assert forall|other: IDAnimatableTarget|
                after.targets.contains(other) <==> after.infos.contains_key(other) by {
                if other == target {
                    assert(after.targets[self.targets.len() as int] == target);
                } else if self.targets.contains(other) {
                    let i = choose|i: int| 0 <= i < self.targets.len() && self.targets[i] == other;
                    assert(after.targets[i] == other);
                } else if after.targets.contains(other) {
                    let i = choose|i: int| 0 <= i < after.targets.len() && after.targets[i] == other;
                    assert(self.targets[i] == other);
                }
            }
            assert(self.of(target).push(info) =~= seq![info]);
        }
    }
}

/// The hash map that holds the evaluations of each staged target.
#[verifier::external_body]
pub struct TargetLists {
    inner: XHashMap<IDAnimatableTarget, Vec<RuntimeInfo>>,
}

/// The lists that a hash map holds, by target.
pub uninterp spec fn target_lists(lists: TargetLists) -> Map<IDAnimatableTarget, Seq<RuntimeInfo>>;

/// `XHashMap::default`: a hash map that holds nothing.
#[verifier::external_body]
fn lists_new() -> (lists: TargetLists)
    ensures
        forall|target: IDAnimatableTarget| !target_lists(lists).contains_key(target),
{
    TargetLists { inner: XHashMap::default() }
}

/// `HashMap::get`: the list under a target, if the map holds the target.
#[verifier::external_body]
fn lists_get(lists: &TargetLists, target: IDAnimatableTarget) -> (list: Option<&Vec<RuntimeInfo>>)
    ensures
        list is Some == target_lists(*lists).contains_key(target),
        list is Some ==> list.unwrap()@ == target_lists(*lists)[target],
{
    lists.inner.get(&target)
}

/// `HashMap::get_mut`: the list under a target, if the map holds the
/// target. What is written through the reference is what the map holds
/// under the target afterwards; nothing else changes.
#[verifier::external_body]
fn lists_get_mut(lists: &mut TargetLists, target: IDAnimatableTarget) -> (list: Option<
    &mut Vec<RuntimeInfo>,
>)
    ensures
        list is Some == target_lists(*old(lists)).contains_key(target),
        list is Some ==> list.unwrap()@ == target_lists(*old(lists))[target],
        list is Some ==> target_lists(*final(lists)) == target_lists(*old(lists)).insert(
            target,
            final(list.unwrap())@,
        ),
        list is None ==> target_lists(*final(lists)) == target_lists(*old(lists)),
{
    lists.inner.get_mut(&target)
}

/// `HashMap::insert`: puts a list under a target, and returns the list that
/// the map held under the target, if it held one.
#[verifier::external_body]
fn lists_insert(
    lists: &mut TargetLists,
    target: IDAnimatableTarget,
    list: Vec<RuntimeInfo>,
) -> (held: Option<Vec<RuntimeInfo>>)
    ensures
        held is Some == target_lists(*old(lists)).contains_key(target),
        held is Some ==> held.unwrap()@ == target_lists(*old(lists))[target],
        target_lists(*final(lists)) == target_lists(*old(lists)).insert(target, list@),
{
    lists.inner.insert(target, list)
}

/// `HashMap::clear`: the map holds nothing afterwards.
#[verifier::external_body]
fn lists_clear(lists: &mut TargetLists)
    ensures
        forall|target: IDAnimatableTarget| !target_lists(*final(lists)).contains_key(target),
{
    lists.inner.clear()
}

/// The staging area of one value type.
pub struct TypeRuntimeInfos {
    targets: Vec<IDAnimatableTarget>,
    infos: TargetLists,
}

impl View for TypeRuntimeInfos {
    type V = StagedInfos;

    closed spec fn view(&self) -> StagedInfos {
        StagedInfos { targets: self.targets@, infos: target_lists(self.infos) }
    }
}

impl TypeRuntimeInfos {
    fn new() -> (r: TypeRuntimeInfos)
        ensures
            r@ == StagedInfos::empty(),
    {
        let r = TypeRuntimeInfos { targets: Vec::new(), infos: lists_new() };
        assert(r@.infos =~= Map::empty());
        r
    }

    /// The staged targets, in the order in which they were first staged.
    pub fn targets(&self) -> (r: &Vec<IDAnimatableTarget>)
        ensures
            r@ == self@.targets,
    {
        &self.targets
    }

    /// The evaluations staged for a target.
    pub fn get(&self, target: IDAnimatableTarget) -> (r: Option<&Vec<RuntimeInfo>>)
        ensures
            match r {
                Some(list) => self@.infos.contains_key(target) && list@ == self@.infos[target],
                None => !self@.infos.contains_key(target),
            },
    {
        lists_get(&self.infos, target)
    }

    fn insert(&mut self, target: IDAnimatableTarget, info: RuntimeInfo)
        ensures
            final(self)@ == old(self)@.insert(target, info),
    {
        let mut found: bool = false;
        match lists_get_mut(&mut self.infos, target) {
            Some(list) => {
                list.push(info);
                found = true;
            },
            None => {},
        }
        if !found {
            let mut list: Vec<RuntimeInfo> = Vec::new();
            list.push(info);
            lists_insert(&mut self.infos, target, list);
            self.targets.push(target);
        }
        assert(self@.infos =~= old(self)@.insert(target, info).infos);
    }

    fn clear(&mut self)
        ensures
            final(self)@ == StagedInfos::empty(),
    {
        self.targets.clear();
        lists_clear(&mut self.infos);
        assert(self@.infos =~= Map::empty());
    }
}

/// The staging area of a tick: for each value type, indexed by its id, what
/// the groups ask to be evaluated for which target.
pub struct RuntimeInfoMap {
    list: Vec<TypeRuntimeInfos>,
}

impl View for RuntimeInfoMap {
    type V = Seq<StagedInfos>;

    closed spec fn view(&self) -> Seq<StagedInfos> {
        Seq::new(self.list@.len(), |ty: int| self.list@[ty]@)
    }
}

/// The staging area after the value type `ty` has been registered: it has
/// grown by empty entries until it has one for `ty`.
pub open spec fn spec_add_type(staged: Seq<StagedInfos>, ty: KeyFrameDataType) -> Seq<StagedInfos> {
    if ty < staged.len() {
        staged
    } else {
        Seq::new(
            (ty + 1) as nat,
            |i: int|
                if i < staged.len() {
                    staged[i]
                } else {
                    StagedInfos::empty()
                },
        )
    }
}

/// The staging area after one more evaluation has been staged for a target,
/// for a registered value type.
pub open spec fn spec_insert(
    staged: Seq<StagedInfos>,
    ty: KeyFrameDataType,
    target: IDAnimatableTarget,
    info: RuntimeInfo,
) -> Seq<StagedInfos> {
    if ty < staged.len() {
        staged.update(ty as int, staged[ty as int].insert(target, info))
    } else {
        staged
    }
}

/// Every value type's lists are well formed.
pub open spec fn spec_staged_wf(staged: Seq<StagedInfos>) -> bool {
    forall|ty: int| 0 <= ty < staged.len() ==> (#[trigger] staged[ty]).wf()
}

/// Staging keeps the area well formed.
pub proof fn lemma_spec_insert_wf(
    staged: Seq<StagedInfos>,
    ty: KeyFrameDataType,
    target: IDAnimatableTarget,
    info: RuntimeInfo,
)
    requires
        spec_staged_wf(staged),
    ensures
        spec_staged_wf(spec_insert(staged, ty, target, info)),
        spec_insert(staged, ty, target, info).len() == staged.len(),
{
    if ty < staged.len() {
        staged[ty as int].lemma_insert_wf(target, info);
    }
}

impl RuntimeInfoMap {
    /// Every value type's lists are well formed.
    pub open spec fn wf(&self) -> bool {
        spec_staged_wf(self@)
    }

    /// An area with no value type registered.
    pub fn default() -> (r: RuntimeInfoMap)
        ensures
            r@.len() == 0,
            r.wf(),
    {
        RuntimeInfoMap { list: Vec::new() }
    }

    /// Registers a value type. Call it once the id of the type is
    /// allocated.
    pub fn add_type(&mut self, ty: KeyFrameDataType)
        requires
            old(self).wf(),
        ensures
            final(self)@ == spec_add_type(old(self)@, ty),
            final(self).wf(),
    {
        while self.list.len() <= ty
            invariant
                old(self).list@.len() <= self.list@.len(),
                self.list@.len() <= ty + 1 || self.list@.len() == old(self).list@.len(),
                forall|i: int| 0 <= i < old(self).list@.len() ==> self.list@[i] == old(self).list@[i],
                forall|i: int|
                    old(self).list@.len() <= i < self.list@.len() ==> (#[trigger] self.list@[i])@
                        == StagedInfos::empty(),
            decreases ty + 1 - self.list@.len(),
        {
            self.list.push(TypeRuntimeInfos::new());
        }
        assert(self@ =~= spec_add_type(old(self)@, ty));
    }

    /// What is staged for a value type, if the type is registered.
    pub fn get_type_list(&self, ty: KeyFrameDataType) -> (r: Option<&TypeRuntimeInfos>)
        ensures
            match r {
                Some(staged) => ty < self@.len() && staged@ == self@[ty as int],
                None => ty >= self@.len(),
            },
    {
        if ty < self.list.len() {
            Some(&self.list[ty])
        } else {
            None
        }
    }

    /// Stages one evaluation for a target. Fails, and changes nothing, if
    /// the value type was never registered.
    pub fn insert(
        &mut self,
        ty: KeyFrameDataType,
        target: IDAnimatableTarget,
        info: RuntimeInfo,
    ) -> (r: Result<(), EAnimationError>)
        requires
            old(self).wf(),
        ensures
            final(self).wf(),
            final(self)@ == spec_insert(old(self)@, ty, target, info),
            ty < old(self)@.len() ==> r == Ok::<(), EAnimationError>(()),
            ty >= old(self)@.len() ==> r == Err::<(), EAnimationError>(
                EAnimationError::RuntimeInfoMapNotFindType,
            ),
    {
        proof {
            lemma_spec_insert_wf(self@, ty, target, info);
        }
        if ty < self.list.len() {
            let staged = &mut self.list[ty];
            staged.insert(target, info);
            assert(self@ =~= spec_insert(old(self)@, ty, target, info));
            Ok(())
        } else {
            Err(EAnimationError::RuntimeInfoMapNotFindType)
        }
    }

    /// Drops everything staged; the value types stay registered.
    pub fn reset(&mut self)
        ensures
            final(self).wf(),
            final(self)@.len() == old(self)@.len(),
            forall|ty: int|
                0 <= ty < final(self)@.len() ==> (#[trigger] final(self)@[ty]) == StagedInfos::empty(),
    {
        let mut i: usize = 0;
        while i < self.list.len()
            invariant
                i <= self.list@.len(),
                self.list@.len() == old(self).list@.len(),
                forall|ty: int| 0 <= ty < i ==> (#[trigger] self.list@[ty])@ == StagedInfos::empty(),
            decreases self.list@.len() - i,
        {
            let staged = &mut self.list[i];
            staged.clear();
            i = i + 1;
        }
    }
}

} // verus!
