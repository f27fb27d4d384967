use vstd::prelude::*;
use crate::base::{FrameIndex, FramePerSecond, KeyFrameDataType};
use crate::error::EAnimationError;

verus! {

/// The slot of a curve inside the context of its value type.
pub type FrameCurveInfoID = usize;

/// What the runtime reads of a key-frame curve: its frame range and the
/// frame rate it was designed at.
#[derive(Debug, Clone, Copy, PartialEq, Eq, Structural)]
pub struct FrameCurveInfo {
    max_frame: FrameIndex,
    min_frame: FrameIndex,
    design_frame_per_second: FramePerSecond,
}

/// `frames / design * running`, rounded down and cut off at the largest
/// frame rate. A division by zero gives the largest value, except that a
/// zero numerator gives zero.
pub open spec fn spec_rescaled_frames(frames: int, design: int, running: int) -> int {
    if design == 0 {
        if frames * running == 0 {
            0
        } else {
            FramePerSecond::MAX as int
        }
    } else if frames * running / design > FramePerSecond::MAX {
        FramePerSecond::MAX as int
    } else {
        frames * running / design
    }
}

impl FrameCurveInfo {
    /// The last frame of the curve.
    pub closed spec fn spec_max_frame(&self) -> FrameIndex {
        self.max_frame
    }

    /// The first frame of the curve.
    pub closed spec fn spec_min_frame(&self) -> FrameIndex {
        self.min_frame
    }

    /// The frame rate the curve was designed at.
    pub closed spec fn spec_design_frame_per_second(&self) -> FramePerSecond {
        self.design_frame_per_second
    }

    /// The description with this frame range and design frame rate.
    pub closed spec fn new_spec(
        max_frame: FrameIndex,
        min_frame: FrameIndex,
        design_frame_per_second: FramePerSecond,
    ) -> FrameCurveInfo {
        FrameCurveInfo { max_frame, min_frame, design_frame_per_second }
    }

    pub fn new(
        max_frame: FrameIndex,
        min_frame: FrameIndex,
        design_frame_per_second: FramePerSecond,
    ) -> (r: FrameCurveInfo)
        ensures
            r == FrameCurveInfo::new_spec(max_frame, min_frame, design_frame_per_second),
            r.spec_max_frame() == max_frame,
            r.spec_min_frame() == min_frame,
            r.spec_design_frame_per_second() == design_frame_per_second,
    {
        FrameCurveInfo { max_frame, min_frame, design_frame_per_second }
    }

    /// The number of frames the curve spans when it runs at another frame
    /// rate.
    pub fn get_max_frame_for_running_speed(
        &self,
        running_frame_per_second: FramePerSecond,
    ) -> (r: FramePerSecond)
        ensures
            r == spec_rescaled_frames(
                self.spec_max_frame() as int,
                self.spec_design_frame_per_second() as int,
                running_frame_per_second as int,
            ),
    {
        let frames: u64 = self.max_frame as u64;
        let running: u64 = running_frame_per_second as u64;
        assert(frames * running <= 0xffff * 0xffff) by (nonlinear_arith)
            requires
                frames <= 0xffff,
                running <= 0xffff,
        ;
        let product: u64 = frames * running;
        if self.design_frame_per_second == 0 {
            if product == 0 {
                0
            } else {
                FramePerSecond::MAX
            }
        } else {
            let scaled: u64 = product / (self.design_frame_per_second as u64);
            if scaled > FramePerSecond::MAX as u64 {
                FramePerSecond::MAX
            } else {
                scaled as u16
            }
        }
    }

    pub fn max_frame(&self) -> (r: FrameIndex)
        ensures
            r == self.spec_max_frame(),
    {
        self.max_frame
    }

    pub fn min_frame(&self) -> (r: FrameIndex)
        ensures
            r == self.spec_min_frame(),
    {
        self.min_frame
    }

    pub fn design_frame_per_second(&self) -> (r: FrameIndex)
        ensures
            r == self.spec_design_frame_per_second(),
    {
        self.design_frame_per_second
    }
}

/// Whether `id` is among the first `count` of `ids`.
pub open spec fn spec_listed(ids: Seq<FrameCurveInfoID>, count: int, id: FrameCurveInfoID) -> bool {
    exists|k: int| 0 <= k < count && k < ids.len() && ids[k] == id
}

/// The first index at which `id` stands among `ids`.
pub open spec fn spec_position(ids: Seq<FrameCurveInfoID>, id: FrameCurveInfoID) -> int {
    choose|i: int| 0 <= i < ids.len() && ids[i] == id && !spec_listed(ids, i, id)
}

/// The index of the first of `ids` that is `id`, if there is one.
fn position(ids: &Vec<FrameCurveInfoID>, id: FrameCurveInfoID) -> (r: Option<usize>)
    ensures
        match r {
            Some(index) => index < ids@.len() && ids@[index as int] == id && !spec_listed(
                ids@,
                index as int,
                id,
            ),
            None => !ids@.contains(id),
        },
{
    let mut i: usize = 0;
    while i < ids.len()
        invariant
            i <= ids@.len(),
            !spec_listed(ids@, i as int, id),
        decreases ids@.len() - i,
    {
        if ids[i] == id {
            return Some(i);
        }
        i = i + 1;
    }
    assert(!ids@.contains(id)) by {
        if ids@.contains(id) {
            let k = choose|k: int| 0 <= k < ids@.len() && ids@[k] == id;
            assert(spec_listed(ids@, i as int, id));
        }
    }
    None
}

/// The curve descriptions of one value type: the descriptions by id, those
/// of removed ids being stale, and the ids that were removed and wait to be
/// used again, the one removed last first.
pub struct CurveInfos {
    pub infos: Seq<FrameCurveInfo>,
    pub free: Seq<FrameCurveInfoID>,
}

impl CurveInfos {
    /// No description.
    pub open spec fn empty() -> CurveInfos {
        CurveInfos { infos: Seq::empty(), free: Seq::empty() }
    }

    /// Every id that waits exists, and none waits twice.
    pub open spec fn wf(self) -> bool {
        &&& self.free.no_duplicates()
        &&& forall|i: int| 0 <= i < self.free.len() ==> (#[trigger] self.free[i]) < self.infos.len()
    }

    /// The id that the next description goes under: the id removed last, or
    /// a new one.
    pub open spec fn next_id(self) -> FrameCurveInfoID {
        if self.free.len() > 0 {
            self.free.last()
        } else {
            self.infos.len() as usize
        }
    }

    /// The descriptions after one more was stored.
    pub open spec fn insert(self, curve: FrameCurveInfo) -> CurveInfos {
        if self.free.len() > 0 {
            CurveInfos {
                infos: self.infos.update(self.free.last() as int, curve),
                free: self.free.drop_last(),
            }
        } else {
            CurveInfos { infos: self.infos.push(curve), free: self.free }
        }
    }

    /// Whether an id was ever given out.
    pub open spec fn knows(self, id: FrameCurveInfoID) -> bool {
        id < self.infos.len()
    }

    /// The descriptions after an id was removed: the id waits to be used
    /// again, unless it waits already or was never given out.
    pub open spec fn remove(self, id: FrameCurveInfoID) -> CurveInfos {
        if self.knows(id) && !self.free.contains(id) {
            CurveInfos { infos: self.infos, free: self.free.push(id) }
        } else {
            self
        }
    }

    /// What is found under an id.
    pub open spec fn get(self, id: FrameCurveInfoID) -> Result<FrameCurveInfo, EAnimationError> {
        if self.knows(id) {
            Ok(self.infos[id as int])
        } else {
            Err(EAnimationError::FrameCurveNotFound)
        }
    }
}

/// What removing an id returns: a failure for an id that was never given
/// out.
pub open spec fn spec_removal(known: bool) -> Result<(), EAnimationError> {
    if known {
        Ok(())
    } else {
        Err(EAnimationError::FrameCurveNotFound)
    }
}

/// The curve descriptions of one value type, each under an id that stays
/// its own until it is removed.
pub trait TTypeFrameCurveInfoManager {
    /// The descriptions and the ids that wait.
    spec fn spec_infos(&self) -> CurveInfos;

    /// Stores a description under the id that was removed last, or under a
    /// new id if none waits.
    fn insert(&mut self, curve: FrameCurveInfo) -> (id: FrameCurveInfoID)
        requires
            old(self).spec_infos().wf(),
        ensures
            final(self).spec_infos().wf(),
            id == old(self).spec_infos().next_id(),
            final(self).spec_infos() == old(self).spec_infos().insert(curve),
    ;

    /// Removes an id, so that it waits to be used again. Removing an id
    /// that waits already changes nothing. Fails for an id that was never
    /// given out.
    fn remove(&mut self, id: FrameCurveInfoID) -> (r: Result<(), EAnimationError>)
        requires
            old(self).spec_infos().wf(),
        ensures
            final(self).spec_infos().wf(),
            r == spec_removal(old(self).spec_infos().knows(id)),
            final(self).spec_infos() == old(self).spec_infos().remove(id),
    ;

    /// The description under an id.
    fn get(&self, id: FrameCurveInfoID) -> (r: Result<FrameCurveInfo, EAnimationError>)
        ensures
            r == self.spec_infos().get(id),
    ;
}

/// The descriptions of all value types after the value type `ty` was
/// registered, and every value type before it.
pub open spec fn spec_with_type(types: Seq<CurveInfos>, ty: KeyFrameDataType) -> Seq<CurveInfos> {
    if ty < types.len() {
        types
    } else {
        Seq::new(
            (ty + 1) as nat,
            |i: int|
                if i < types.len() {
                    types[i]
                } else {
                    CurveInfos::empty()
                },
        )
    }
}

/// The descriptions of every value type are well formed.
pub open spec fn spec_types_wf(types: Seq<CurveInfos>) -> bool {
    forall|i: int| 0 <= i < types.len() ==> (#[trigger] types[i]).wf()
}

/// The curve descriptions of all value types.
pub trait TFrameCurveInfoManager {
    /// The descriptions of each value type, by the id of the type.
    spec fn spec_types(&self) -> Seq<CurveInfos>;

    /// Registers a value type, and every value type before it.
    fn add_type(&mut self, ty: KeyFrameDataType) -> (r: Result<(), EAnimationError>)
        requires
            spec_types_wf(old(self).spec_types()),
        ensures
            spec_types_wf(final(self).spec_types()),
            r == Ok::<(), EAnimationError>(()),
            final(self).spec_types() == spec_with_type(old(self).spec_types(), ty),
    ;

    /// Stores a description for a registered value type.
    fn insert(&mut self, ty: KeyFrameDataType, curve: FrameCurveInfo) -> (id: FrameCurveInfoID)
        requires
            spec_types_wf(old(self).spec_types()),
            ty < old(self).spec_types().len(),
        ensures
            spec_types_wf(final(self).spec_types()),
            id == old(self).spec_types()[ty as int].next_id(),
            final(self).spec_types() == old(self).spec_types().update(
                ty as int,
                old(self).spec_types()[ty as int].insert(curve),
            ),
    ;

    /// Removes an id of a value type. A value type that is not registered
    /// has nothing to remove, which is no failure.
    fn remove(&mut self, ty: KeyFrameDataType, id: FrameCurveInfoID) -> (r: Result<
        (),
        EAnimationError,
    >)
        requires
            spec_types_wf(old(self).spec_types()),
        ensures
            spec_types_wf(final(self).spec_types()),
            ty >= old(self).spec_types().len() ==> {
                &&& r == Ok::<(), EAnimationError>(())
                &&& final(self).spec_types() == old(self).spec_types()
            },
            ty < old(self).spec_types().len() ==> {
                &&& r == spec_removal(old(self).spec_types()[ty as int].knows(id))
                &&& final(self).spec_types() == old(self).spec_types().update(
                    ty as int,
                    old(self).spec_types()[ty as int].remove(id),
                )
            },
    ;

    /// The description under an id of a value type.
    fn get(&self, ty: KeyFrameDataType, id: FrameCurveInfoID) -> (r: Result<
        FrameCurveInfo,
        EAnimationError,
    >)
        ensures
            r == if ty < self.spec_types().len() {
                self.spec_types()[ty as int].get(id)
            } else {
                Err(EAnimationError::FrameCurveNotFound)
            },
    ;
}

/// The curves of one value type, each under the id that the description
/// manager gave it.
pub trait TFrameCurvePool<T> {
    /// The ids of the curves, in the order in which the pool holds them.
    spec fn spec_ids(&self) -> Seq<FrameCurveInfoID>;

    /// The curves, each at the index of its id.
    spec fn spec_curves(&self) -> Seq<T>;

    /// Takes a curve under an id.
    fn insert(&mut self, id: FrameCurveInfoID, curve: T)
        requires
            old(self).spec_ids().len() == old(self).spec_curves().len(),
        ensures
            final(self).spec_ids() == old(self).spec_ids().push(id),
            final(self).spec_curves() == old(self).spec_curves().push(curve),
    ;

    /// Removes the first curve under an id; the last curve of the pool
    /// takes its place. Fails, and changes nothing, if there is no curve
    /// under the id.
    fn remove(&mut self, id: FrameCurveInfoID) -> (r: Result<(), EAnimationError>)
        requires
            old(self).spec_ids().len() == old(self).spec_curves().len(),
        ensures
            final(self).spec_ids().len() == final(self).spec_curves().len(),
            r == spec_removal(old(self).spec_ids().contains(id)),
            final(self).spec_ids() == spec_swap_removed(old(self).spec_ids(), old(self).spec_ids(), id),
            final(self).spec_curves() == spec_swap_removed(
                old(self).spec_curves(),
                old(self).spec_ids(),
                id,
            ),
    ;

    /// The first curve under an id.
    fn get(&self, id: FrameCurveInfoID) -> (r: Result<&T, EAnimationError>)
        requires
            self.spec_ids().len() == self.spec_curves().len(),
        ensures
            r is Ok == self.spec_ids().contains(id),
            r matches Ok(curve) ==> *curve == self.spec_curves()[spec_position(self.spec_ids(), id)],
            r matches Err(error) ==> error == EAnimationError::FrameCurveNotFound,
    ;
}

/// A sequence after the element at the first position of `id` among `ids`
/// was removed and the last element took its place; the sequence itself if
/// `id` is not among `ids`.
pub open spec fn spec_swap_removed<A>(
    items: Seq<A>,
    ids: Seq<FrameCurveInfoID>,
    id: FrameCurveInfoID,
) -> Seq<A> {
    if ids.contains(id) {
        items.update(spec_position(ids, id), items.last()).drop_last()
    } else {
        items
    }
}

/// The curve descriptions of one value type.
pub struct TypeFrameCurveInfoManager {
    id_pool: Vec<FrameCurveInfoID>,
    curve_infos: Vec<FrameCurveInfo>,
}

impl TypeFrameCurveInfoManager {
    /// A manager without descriptions.
    pub fn default() -> (r: TypeFrameCurveInfoManager)
        ensures
            r.spec_infos() == CurveInfos::empty(),
    {
        TypeFrameCurveInfoManager { id_pool: Vec::new(), curve_infos: Vec::new() }
    }
}

impl TTypeFrameCurveInfoManager for TypeFrameCurveInfoManager {
    closed spec fn spec_infos(&self) -> CurveInfos {
        CurveInfos { infos: self.curve_infos@, free: self.id_pool@ }
    }

    fn insert(&mut self, curve: FrameCurveInfo) -> (id: FrameCurveInfoID) {
        match self.id_pool.pop() {
            Some(id) => {
                assert(old(self).id_pool@[old(self).id_pool@.len() - 1] == id);
                self.curve_infos[id] = curve;
                id
            },
            None => {
                let id: FrameCurveInfoID = self.curve_infos.len();
                self.curve_infos.push(curve);
                id
            },
        }
    }

    fn remove(&mut self, id: FrameCurveInfoID) -> (r: Result<(), EAnimationError>) {
        if id < self.curve_infos.len() {
            if position(&self.id_pool, id).is_none() {
                self.id_pool.push(id);
                assert forall|i: int, j: int|
                    0 <= i < j < self.id_pool@.len() implies self.id_pool@[i]
                    != self.id_pool@[j] by {
                    if j == old(self).id_pool@.len() {
                        assert(old(self).id_pool@.contains(old(self).id_pool@[i]));
                    }
                }
            }
            Ok(())
        } else {
            Err(EAnimationError::FrameCurveNotFound)
        }
    }

    fn get(&self, id: FrameCurveInfoID) -> (r: Result<FrameCurveInfo, EAnimationError>) {
        if id < self.curve_infos.len() {
            Ok(self.curve_infos[id])
        } else {
            Err(EAnimationError::FrameCurveNotFound)
        }
    }
}

/// The curve descriptions of all value types, by the id of the type.
pub struct FrameCurveInfoManager {
    list: Vec<TypeFrameCurveInfoManager>,
}

impl FrameCurveInfoManager {
    /// A manager without value types.
    pub fn default() -> (r: FrameCurveInfoManager)
        ensures
            r.spec_types().len() == 0,
    {
        FrameCurveInfoManager { list: Vec::new() }
    }
}

impl TFrameCurveInfoManager for FrameCurveInfoManager {
    closed spec fn spec_types(&self) -> Seq<CurveInfos> {
        Seq::new(self.list@.len(), |i: int| self.list@[i].spec_infos())
    }

    fn add_type(&mut self, ty: KeyFrameDataType) -> (r: Result<(), EAnimationError>) {
        while self.list.len() <= ty
            invariant
                old(self).list@.len() <= self.list@.len(),
                self.list@.len() <= ty + 1 || self.list@.len() == old(self).list@.len(),
                forall|i: int|
                    0 <= i < old(self).list@.len() ==> self.list@[i] == old(self).list@[i],
                forall|i: int|
                    old(self).list@.len() <= i < self.list@.len() ==> (
                    #[trigger] self.list@[i]).spec_infos() == CurveInfos::empty(),
            decreases ty + 1 - self.list@.len(),
        {
            self.list.push(TypeFrameCurveInfoManager::default());
        }
        assert(self.spec_types() =~= spec_with_type(old(self).spec_types(), ty));
        assert forall|i: int| 0 <= i < self.spec_types().len() implies (
        #[trigger] self.spec_types()[i]).wf() by {
            if i < old(self).spec_types().len() {
                assert(old(self).spec_types()[i].wf());
            }
        }
        Ok(())
    }

    fn insert(&mut self, ty: KeyFrameDataType, curve: FrameCurveInfo) -> (id: FrameCurveInfoID) {
        assert(old(self).spec_types()[ty as int].wf());
        let manager = &mut self.list[ty];
        let id: FrameCurveInfoID = manager.insert(curve);
        assert(self.spec_types() =~= old(self).spec_types().update(
            ty as int,
            old(self).spec_types()[ty as int].insert(curve),
        ));
        assert forall|i: int| 0 <= i < self.spec_types().len() implies (
        #[trigger] self.spec_types()[i]).wf() by {
            if i != ty {
                assert(old(self).spec_types()[i].wf());
            }
        }
        id
    }

    fn remove(&mut self, ty: KeyFrameDataType, id: FrameCurveInfoID) -> (r: Result<
        (),
        EAnimationError,
    >) {
        if ty < self.list.len() {
            assert(old(self).spec_types()[ty as int].wf());
            let manager = &mut self.list[ty];
            let r = manager.remove(id);
            assert(self.spec_types() =~= old(self).spec_types().update(
                ty as int,
                old(self).spec_types()[ty as int].remove(id),
            ));
            assert forall|i: int| 0 <= i < self.spec_types().len() implies (
            #[trigger] self.spec_types()[i]).wf() by {
                if i != ty {
                    assert(old(self).spec_types()[i].wf());
                }
            }
            r
        } else {
            assert(self.spec_types() =~= old(self).spec_types());
            Ok(())
        }
    }

    fn get(&self, ty: KeyFrameDataType, id: FrameCurveInfoID) -> (r: Result<
        FrameCurveInfo,
        EAnimationError,
    >) {
        if ty < self.list.len() {
            self.list[ty].get(id)
        } else {
            Err(EAnimationError::FrameCurveNotFound)
        }
    }
}

/// The curves of one value type; `T` is the host's handle of a curve.
pub struct FrameCurvePool<T> {
    arcs: Vec<T>,
    infos: Vec<FrameCurveInfoID>,
}

impl<T> FrameCurvePool<T> {
    /// The description of a curve with this frame range and design frame
    /// rate.
    pub fn curve_info(
        max_frame: FrameIndex,
        min_frame: FrameIndex,
        design_frame_per_second: FramePerSecond,
    ) -> (r: FrameCurveInfo)
        ensures
            r == FrameCurveInfo::new_spec(max_frame, min_frame, design_frame_per_second),
    {
        FrameCurveInfo::new(max_frame, min_frame, design_frame_per_second)
    }

    /// A pool without curves.
    pub fn default() -> (r: FrameCurvePool<T>)
        ensures
            r.spec_ids().len() == 0,
            r.spec_curves().len() == 0,
    {
        FrameCurvePool { arcs: Vec::new(), infos: Vec::new() }
    }
}

impl<T> TFrameCurvePool<T> for FrameCurvePool<T> {
    closed spec fn spec_ids(&self) -> Seq<FrameCurveInfoID> {
        self.infos@
    }

    closed spec fn spec_curves(&self) -> Seq<T> {
        self.arcs@
    }

    fn insert(&mut self, id: FrameCurveInfoID, curve: T) {
        self.infos.push(id);
        self.arcs.push(curve);
    }

    fn remove(&mut self, id: FrameCurveInfoID) -> (r: Result<(), EAnimationError>) {
        match position(&self.infos, id) {
            Some(index) => {
                proof {
                    lemma_first_index(self.infos@, id, index as int);
                }
                self.infos.swap_remove(index);
                self.arcs.swap_remove(index);
                Ok(())
            },
            None => Err(EAnimationError::FrameCurveNotFound),
        }
    }

    fn get(&self, id: FrameCurveInfoID) -> (r: Result<&T, EAnimationError>) {
        match position(&self.infos, id) {
            Some(index) => {
                proof {
                    lemma_first_index(self.infos@, id, index as int);
                }
                Ok(&self.arcs[index])
            },
            None => Err(EAnimationError::FrameCurveNotFound),
        }
    }
}

/// The first index at which an id stands is its position.
proof fn lemma_first_index(ids: Seq<FrameCurveInfoID>, id: FrameCurveInfoID, index: int)
    requires
        0 <= index < ids.len(),
        ids[index] == id,
        !spec_listed(ids, index, id),
    ensures
        ids.contains(id),
        spec_position(ids, id) == index,
{
    let found = spec_position(ids, id);
    if found < index {
        assert(spec_listed(ids, index, id));
    } else if index < found {
        assert(spec_listed(ids, found, id));
    }
}

} // verus!
