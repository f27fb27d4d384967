use vstd::prelude::*;
use pi_slotmap::{DefaultKey, KeyData, SecondaryMap};
use crate::animation_group_manager::spec_is_older_version;
use crate::base::Fixed;
use crate::error::EAnimationError;
use crate::target_modifier::{IDAnimatableAttr, IDAnimatableTarget};

verus! {

/// A value that a curve gave for an attribute of a target, with the blend
/// weight of the group that asked for it.
#[derive(Debug)]
pub struct AnimeResult<F> {
    pub value: F,
    pub attr: IDAnimatableAttr,
    pub weight: Fixed,
}

/// The slot of the host's key that a target stands for: the low 32 bits.
pub open spec fn spec_target_slot(target: IDAnimatableTarget) -> u32 {
    ((target as int) % 0x1_0000_0000) as u32
}

/// The generation of the host's key that a target stands for: the bits
/// above the low 32.
pub open spec fn spec_target_version(target: IDAnimatableTarget) -> u32 {
    ((target as int) / 0x1_0000_0000) as u32
}

/// Whether a target stands for the null key: every bit of 64 is set.
pub open spec fn spec_target_is_null(target: IDAnimatableTarget) -> bool {
    target == 0xffff_ffff_ffff_ffff
}

/// Whether `other` is a recorded target in the slot of `target`.
pub open spec fn spec_slot_mate(
    recorded: Set<IDAnimatableTarget>,
    target: IDAnimatableTarget,
    other: IDAnimatableTarget,
) -> bool {
    recorded.contains(other) && spec_target_slot(other) == spec_target_slot(target)
}

/// A recorded target in the slot of `target`, if there is one.
pub open spec fn spec_in_slot(
    recorded: Set<IDAnimatableTarget>,
    target: IDAnimatableTarget,
) -> IDAnimatableTarget {
    choose|other: IDAnimatableTarget| spec_slot_mate(recorded, target, other)
}

/// What a pool holds after a list was offered to it for a target. The null
/// key is refused. A target that is recorded gets the list. Else the list
/// goes in, and puts out what the pool holds for another target of the same
/// slot, unless the offered target is of the older generation: then the pool
/// stays as it is.
pub open spec fn spec_target_offered<V>(
    before: Map<IDAnimatableTarget, V>,
    target: IDAnimatableTarget,
    list: V,
) -> Map<IDAnimatableTarget, V> {
    if spec_target_is_null(target) {
        before
    } else if before.contains_key(target) {
        before.insert(target, list)
    } else if exists|other: IDAnimatableTarget| spec_slot_mate(before.dom(), target, other) {
        if spec_is_older_version(
            spec_target_version(target),
            spec_target_version(spec_in_slot(before.dom(), target)),
        ) {
            before
        } else {
            before.remove(spec_in_slot(before.dom(), target)).insert(target, list)
        }
    } else {
        before.insert(target, list)
    }
}

/// Whether a list that is offered for a target goes in: the target is not
/// the null key, and it is recorded already, or its slot is empty, or it is
/// not of an older generation than the target that the slot holds.
pub open spec fn spec_target_taken(
    recorded: Set<IDAnimatableTarget>,
    target: IDAnimatableTarget,
) -> bool {
    &&& !spec_target_is_null(target)
    &&& {
        ||| recorded.contains(target)
        ||| !(exists|other: IDAnimatableTarget| spec_slot_mate(recorded, target, other))
        ||| !spec_is_older_version(
            spec_target_version(target),
            spec_target_version(spec_in_slot(recorded, target)),
        )
    }
}

/// The secondary map that holds, for each recorded target, the place of its
/// list.
#[verifier::external_body]
pub struct TargetSlots {
    inner: SecondaryMap<DefaultKey, usize>,
}

/// The places that a secondary map holds, by target.
pub uninterp spec fn slot_places(slots: TargetSlots) -> Map<IDAnimatableTarget, usize>;

/// `SecondaryMap::new`: a secondary map that holds nothing.
#[verifier::external_body]
fn places_new() -> (slots: TargetSlots)
    ensures
        forall|target: IDAnimatableTarget| !slot_places(slots).contains_key(target),
{
    TargetSlots { inner: SecondaryMap::new() }
}

/// `SecondaryMap::get`: a copy of the place under the key of a target, if
/// the map holds the key.
#[verifier::external_body]
fn places_get(slots: &TargetSlots, target: IDAnimatableTarget) -> (place: Option<usize>)
    ensures
        place == if slot_places(*slots).contains_key(target) {
            Some(slot_places(*slots)[target])
        } else {
            None
        },
{
    slots.inner.get(DefaultKey::from(KeyData::from_ffi(target as u64))).copied()
}

/// `SecondaryMap::insert`: offers a place under the key of a target, and
/// returns the place that the map held under that key.
#[verifier::external_body]
fn places_insert(slots: &mut TargetSlots, target: IDAnimatableTarget, place: usize) -> (held: Option<
    usize,
>)
    ensures
        slot_places(*final(slots)) == spec_target_offered(slot_places(*old(slots)), target, place),
        held == if !spec_target_is_null(target) && slot_places(*old(slots)).contains_key(target) {
            Some(slot_places(*old(slots))[target])
        } else {
            None
        },
{
    slots.inner.insert(DefaultKey::from(KeyData::from_ffi(target as u64)), place)
}

/// Where the results of one value type are put: a list for each target that
/// was recorded, in the order in which the results came.
pub trait TypeAnimationResultPool<F> {
    /// The results that wait to be taken, by target.
    spec fn results(&self) -> Map<IDAnimatableTarget, Seq<AnimeResult<F>>>;

    /// What the pool relies on.
    spec fn wf(&self) -> bool;

    /// Whether the pool has room for a target that is not recorded yet.
    spec fn takes(&self, id_target: IDAnimatableTarget) -> bool;

    /// Makes room for the results of a target. If the target is recorded
    /// already, nothing changes. Else, if the pool has room for it, the
    /// target is recorded with no results; if the pool has none, nothing
    /// changes.
    fn record_target(&mut self, id_target: IDAnimatableTarget)
        requires
            old(self).wf(),
        ensures
            final(self).wf(),
            old(self).results().contains_key(id_target) || !old(self).takes(id_target)
                ==> final(self).results() == old(self).results(),
            !old(self).results().contains_key(id_target) && old(self).takes(id_target) ==> {
                &&& final(self).results().contains_key(id_target)
                &&& final(self).results()[id_target].len() == 0
            },
    ;

    /// Puts a result behind the results of its target. Fails, and changes
    /// nothing, if the target was never recorded.
    fn record_result(
        &mut self,
        id_target: IDAnimatableTarget,
        id_attr: IDAnimatableAttr,
        result: AnimeResult<F>,
    ) -> (r: Result<(), EAnimationError>)
        requires
            old(self).wf(),
        ensures
            final(self).wf(),
            old(self).results().contains_key(id_target) ==> r == Ok::<(), EAnimationError>(())
                && final(self).results() == old(self).results().insert(
                id_target,
                old(self).results()[id_target].push(result),
            ),
            !old(self).results().contains_key(id_target) ==> r == Err::<(), EAnimationError>(
                EAnimationError::TargetIDNotRecordForTypeAnimationContext,
            ) && final(self).results() == old(self).results(),
    ;
}

/// The pool that the runtime offers by default. It keeps the targets as the
/// host's slot map keeps its keys: a target stands for a key, its low 32
/// bits for the slot and the bits above for the generation, and a slot has
/// room for one generation at a time.
pub struct TypeAnimationResultPoolDefault<T> {
    result: TargetSlots,
    lists: Vec<Vec<AnimeResult<T>>>,
}

impl<T> TypeAnimationResultPoolDefault<T> {
    /// Every recorded target has a list of its own.
    pub closed spec fn placed(&self) -> bool {
        &&& forall|target: IDAnimatableTarget| #[trigger]
            slot_places(self.result).contains_key(target) ==> slot_places(self.result)[target]
                < self.lists@.len()
        &&& forall|one: IDAnimatableTarget, other: IDAnimatableTarget|
            #![trigger slot_places(self.result)[one], slot_places(self.result)[other]]
            slot_places(self.result).contains_key(one) && slot_places(self.result).contains_key(
                other,
            ) && one != other ==> slot_places(self.result)[one] != slot_places(self.result)[other]
    }

    /// Empties the list of every target. The targets stay recorded.
    pub fn reset(&mut self)
        requires
            old(self).wf(),
        ensures
            final(self).wf(),
            final(self).results().dom() == old(self).results().dom(),
            forall|target: IDAnimatableTarget| #[trigger]
                final(self).results().contains_key(target) ==> final(self).results()[target].len()
                    == 0,
    {
        let mut i: usize = 0;
        while i < self.lists.len()
            invariant
                i <= self.lists@.len(),
                self.result == old(self).result,
                self.lists@.len() == old(self).lists@.len(),
                forall|k: int| 0 <= k < i ==> (#[trigger] self.lists@[k])@.len() == 0,
            decreases self.lists@.len() - i,
        {
            let list = &mut self.lists[i];
            list.clear();
            i = i + 1;
        }
        assert(self.results().dom() =~= old(self).results().dom());
    }

    /// Takes the results of a target, and leaves the target with none.
    pub fn query_result(&mut self, target: IDAnimatableTarget) -> (r: Vec<AnimeResult<T>>)
        requires
            old(self).wf(),
            old(self).results().contains_key(target),
        ensures
            final(self).wf(),
            r@ == old(self).results()[target],
            final(self).results() == old(self).results().insert(target, Seq::empty()),
    {
        let mut taken: Vec<AnimeResult<T>> = Vec::new();
        match places_get(&self.result, target) {
            Some(place) => {
                let list = &mut self.lists[place];
                std::mem::swap(list, &mut taken);
            },
            None => {},
        }
        assert(self.results() =~= old(self).results().insert(target, Seq::empty()));
        taken
    }

    /// Takes the results of a target if the target is recorded.
    pub fn try_query_result(&mut self, target: IDAnimatableTarget) -> (r: Option<
        Vec<AnimeResult<T>>,
    >)
        requires
            old(self).wf(),
        ensures
            final(self).wf(),
            r is Some == old(self).results().contains_key(target),
            r matches Some(list) ==> list@ == old(self).results()[target],
            final(self).results() == if old(self).results().contains_key(target) {
                old(self).results().insert(target, Seq::empty())
            } else {
                old(self).results()
            },
    {
        if places_get(&self.result, target).is_some() {
            Some(self.query_result(target))
        } else {
            None
        }
    }
}

impl<F> Default for TypeAnimationResultPoolDefault<F> {
    fn default() -> (r: TypeAnimationResultPoolDefault<F>)
        ensures
            r.wf(),
            r.results() =~= Map::<IDAnimatableTarget, Seq<AnimeResult<F>>>::empty(),
    {
        TypeAnimationResultPoolDefault { result: places_new(), lists: Vec::new() }
    }
}

impl<F> TypeAnimationResultPool<F> for TypeAnimationResultPoolDefault<F> {
    closed spec fn results(&self) -> Map<IDAnimatableTarget, Seq<AnimeResult<F>>> {
        Map::new(
            |target: IDAnimatableTarget| slot_places(self.result).contains_key(target),
            |target: IDAnimatableTarget| self.lists@[slot_places(self.result)[target] as int]@,
        )
    }

    closed spec fn wf(&self) -> bool {
        self.placed()
    }

    open spec fn takes(&self, id_target: IDAnimatableTarget) -> bool {
        spec_target_taken(self.results().dom(), id_target)
    }

    /// Makes room for the results of a target that is not recorded, as far
    /// as its slot lets it in: a target of a newer generation puts out the
    /// one that the slot holds, with its results.
    fn record_target(&mut self, id_target: IDAnimatableTarget)
        ensures
            final(self).results() == if old(self).results().contains_key(id_target) {
                old(self).results()
            } else {
                spec_target_offered(old(self).results(), id_target, Seq::empty())
            },
    {
        if places_get(&self.result, id_target).is_none() {
            let place: usize = self.lists.len();
            self.lists.push(Vec::new());
            places_insert(&mut self.result, id_target, place);
            proof {
                let before = slot_places(old(self).result);
                let after = slot_places(self.result);
                assert(before.dom() =~= old(self).results().dom());
                assert(after == spec_target_offered(before, id_target, place));
                assert(self.results() =~= spec_target_offered(
                    old(self).results(),
                    id_target,
                    Seq::empty(),
                ));
            }
        } else {
            assert(self.results() =~= old(self).results());
        }
    }

    fn record_result(
        &mut self,
        id_target: IDAnimatableTarget,
        id_attr: IDAnimatableAttr,
        result: AnimeResult<F>,
    ) -> (r: Result<(), EAnimationError>) {
        match places_get(&self.result, id_target) {
            Some(place) => {
                let list = &mut self.lists[place];
                list.push(result);
                assert(self.results() =~= old(self).results().insert(
                    id_target,
                    old(self).results()[id_target].push(result),
                ));
                Ok(())
            },
            None => {
                assert(self.results() =~= old(self).results());
                Err(EAnimationError::TargetIDNotRecordForTypeAnimationContext)
            },
        }
    }
}

} // verus!
