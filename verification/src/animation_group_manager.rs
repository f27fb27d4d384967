use vstd::prelude::*;
use pi_slotmap::{DefaultKey, Key, KeyData, SecondaryMap, SlotMap};
use crate::animation::AnimationInfo;
use crate::animation_group::{
    AnimationGroup, AnimationGroupID, AnimationGroupRuntimeInfo, GroupState,
};
use crate::target_animation::TargetAnimation;

verus! {

/// The number of groups that a slot map cannot exceed.
pub const GROUP_LIMIT: usize = 0xffff_fffe;

/// The slot map that holds the groups.
#[verifier::external_body]
pub struct GroupSlots {
    inner: SlotMap<DefaultKey, AnimationGroup>,
}

/// The groups that a slot map holds, by key.
pub uninterp spec fn slot_groups(slots: GroupSlots) -> Map<AnimationGroupID, AnimationGroup>;

/// `SlotMap::with_key`: a slot map that holds nothing.
#[verifier::external_body]
fn slots_new() -> (slots: GroupSlots)
    ensures
        forall|id: AnimationGroupID| !slot_groups(slots).contains_key(id),
{
    GroupSlots { inner: SlotMap::with_key() }
}

/// `SlotMap::len`: the number of values held.
#[verifier::external_body]
fn slots_len(slots: &GroupSlots) -> (len: usize)
    ensures
        len == slot_groups(*slots).dom().len(),
{
    slots.inner.len()
}

/// `SlotMap::insert`: stores the value under a key that the map did not
/// hold, and returns the key. The key is never the null key. The call
/// panics once the map holds 2^32 - 2 values, which the precondition rules
/// out.
#[verifier::external_body]
fn slots_insert(slots: &mut GroupSlots, group: AnimationGroup) -> (id: AnimationGroupID)
    requires
        slot_groups(*old(slots)).dom().len() < GROUP_LIMIT,
    ensures
        !slot_groups(*old(slots)).contains_key(id),
        !id.spec_is_null(),
        slot_groups(*final(slots)) == slot_groups(*old(slots)).insert(id, group),
{
    let data: KeyData = slots.inner.insert(group).data();
    AnimationGroupID { index: data.index(), version: data.version() }
}

/// `SlotMap::remove`: takes the value under the key out of the map and
/// returns it; returns nothing, and changes nothing, if the map does not hold
/// the key.
#[verifier::external_body]
fn slots_remove(slots: &mut GroupSlots, id: AnimationGroupID) -> (group: Option<AnimationGroup>)
    ensures
        group == if slot_groups(*old(slots)).contains_key(id) {
            Some(slot_groups(*old(slots))[id])
        } else {
            None
        },
        slot_groups(*final(slots)) == slot_groups(*old(slots)).remove(id),
{
    slots.inner.remove(DefaultKey::from(KeyData::new(id.index, id.version)))
}

/// `SlotMap::get`: the value under the key, if the map holds the key.
#[verifier::external_body]
fn slots_get(slots: &GroupSlots, id: AnimationGroupID) -> (group: Option<&AnimationGroup>)
    ensures
        group == if slot_groups(*slots).contains_key(id) {
            Some(&slot_groups(*slots)[id])
        } else {
            None
        },
{
    slots.inner.get(DefaultKey::from(KeyData::new(id.index, id.version)))
}

/// `SlotMap::get_mut`: the value under the key, if the map holds the key.
/// What is written through the reference is what the map holds under the key
/// afterwards; nothing else changes.
#[verifier::external_body]
fn slots_get_mut(slots: &mut GroupSlots, id: AnimationGroupID) -> (group: Option<
    &mut AnimationGroup,
>)
    ensures
        group is Some == slot_groups(*old(slots)).contains_key(id),
        group is Some ==> *group.unwrap() == slot_groups(*old(slots))[id],
        group is Some ==> slot_groups(*final(slots)) == slot_groups(*old(slots)).insert(
            id,
            *final(group.unwrap()),
        ),
        group is None ==> slot_groups(*final(slots)) == slot_groups(*old(slots)),
{
    slots.inner.get_mut(DefaultKey::from(KeyData::new(id.index, id.version)))
}

/// The secondary map that holds, for each group, the record that the group
/// publishes.
#[verifier::external_body]
pub struct GroupInfoSlots {
    inner: SecondaryMap<DefaultKey, AnimationGroupRuntimeInfo>,
}

/// The records that a secondary map holds, by key.
pub uninterp spec fn slot_infos(slots: GroupInfoSlots) -> Map<
    AnimationGroupID,
    AnimationGroupRuntimeInfo,
>;

/// The keys of a secondary map in the order in which it is walked.
pub uninterp spec fn slot_info_order(slots: GroupInfoSlots) -> Seq<AnimationGroupID>;

/// Whether the generation `version` counts as older than `other`: the
/// distance from `other` up to `version`, around the 32-bit circle, is more
/// than half the circle.
pub open spec fn spec_is_older_version(version: u32, other: u32) -> bool {
    (version - other) % 0x1_0000_0000 > 0x8000_0000
}

/// What a secondary map holds after a record was offered to it under a key.
/// The null key is refused. A key that the map holds gets the new record.
/// Else the record goes in, and puts out what the map holds under another
/// key of the same slot, unless the offered key is the older of the two: then
/// the map stays as it is.
pub open spec fn spec_offered(
    before: Map<AnimationGroupID, AnimationGroupRuntimeInfo>,
    id: AnimationGroupID,
    info: AnimationGroupRuntimeInfo,
) -> Map<AnimationGroupID, AnimationGroupRuntimeInfo> {
    if id.spec_is_null() {
        before
    } else if before.contains_key(id) {
        before.insert(id, info)
    } else if exists|other: AnimationGroupID| spec_shares_slot(before, id, other) {
        let other = choose|other: AnimationGroupID| spec_shares_slot(before, id, other);
        if spec_is_older_version(id.version, other.version) {
            before
        } else {
            before.remove(other).insert(id, info)
        }
    } else {
        before.insert(id, info)
    }
}

/// Whether the map holds `other`, a key of the slot of `id`.
pub open spec fn spec_shares_slot(
    before: Map<AnimationGroupID, AnimationGroupRuntimeInfo>,
    id: AnimationGroupID,
    other: AnimationGroupID,
) -> bool {
    before.contains_key(other) && other.index == id.index
}

/// Whether keys stand in the order of their slots, no two in one slot.
pub open spec fn spec_by_slot(keys: Seq<AnimationGroupID>) -> bool {
    forall|i: int, j: int| 0 <= i < j < keys.len() ==> keys[i].index < keys[j].index
}

/// Keys can stand in the order of their slots in one way only: two such
/// sequences of the same keys are the same sequence.
pub proof fn lemma_by_slot_is_one_order(
    first: Seq<AnimationGroupID>,
    second: Seq<AnimationGroupID>,
)
    requires
        spec_by_slot(first),
        spec_by_slot(second),
        forall|id: AnimationGroupID| first.contains(id) <==> second.contains(id),
    ensures
        first == second,
    decreases first.len(),
{
    if first.len() == 0 {
        if second.len() > 0 {
            assert(second.contains(second[0]));
        }
        assert(first =~= second);
    } else {
        assert(first.contains(first.last()));
        assert(second.contains(first.last()));
        let j = choose|j: int| 0 <= j < second.len() && second[j] == first.last();
        assert(second.contains(second.last()));
        let i = choose|i: int| 0 <= i < first.len() && first[i] == second.last();
        assert(i == first.len() - 1 && j == second.len() - 1);
        let less = first.drop_last();
        let other = second.drop_last();
        assert forall|id: AnimationGroupID| less.contains(id) <==> other.contains(id) by {
            if less.contains(id) {
                let k = choose|k: int| 0 <= k < less.len() && less[k] == id;
                assert(first[k] == id);
                assert(first.contains(id));
                let m = choose|m: int| 0 <= m < second.len() && second[m] == id;
                assert(m < second.len() - 1);
                assert(other[m] == id);
            }
            if other.contains(id) {
                let k = choose|k: int| 0 <= k < other.len() && other[k] == id;
                assert(second[k] == id);
                assert(second.contains(id));
                let m = choose|m: int| 0 <= m < first.len() && first[m] == id;
                assert(m < first.len() - 1);
                assert(less[m] == id);
            }
        }
        lemma_by_slot_is_one_order(less, other);
        assert(first =~= less.push(first.last()));
        assert(second =~= other.push(second.last()));
    }
}

/// `SecondaryMap::new`: a secondary map that holds nothing.
#[verifier::external_body]
fn infos_new() -> (slots: GroupInfoSlots)
    ensures
        forall|id: AnimationGroupID| !slot_infos(slots).contains_key(id),
{
    GroupInfoSlots { inner: SecondaryMap::new() }
}

/// `SecondaryMap::insert`: offers a record under a key, and returns the
/// record that the map held under that key.
#[verifier::external_body]
fn infos_insert(
    slots: &mut GroupInfoSlots,
    id: AnimationGroupID,
    info: AnimationGroupRuntimeInfo,
) -> (held: Option<AnimationGroupRuntimeInfo>)
    ensures
        slot_infos(*final(slots)) == spec_offered(slot_infos(*old(slots)), id, info),
        held == if !id.spec_is_null() && slot_infos(*old(slots)).contains_key(id) {
            Some(slot_infos(*old(slots))[id])
        } else {
            None
        },
{
    slots.inner.insert(DefaultKey::from(KeyData::new(id.index, id.version)), info)
}

/// `SecondaryMap::get`: a copy of the record under the key, if the map
/// holds the key.
#[verifier::external_body]
fn infos_get(slots: &GroupInfoSlots, id: AnimationGroupID) -> (info: Option<
    AnimationGroupRuntimeInfo,
>)
    ensures
        info == if slot_infos(*slots).contains_key(id) {
            Some(slot_infos(*slots)[id])
        } else {
            None
        },
{
    slots.inner.get(DefaultKey::from(KeyData::new(id.index, id.version))).copied()
}

/// `SecondaryMap::get_mut`: the record under the key, if the map holds the
/// key. What is written through the reference is what the map holds under
/// the key afterwards; nothing else changes, nor does the order in which the
/// map is walked.
#[verifier::external_body]
fn infos_get_mut(slots: &mut GroupInfoSlots, id: AnimationGroupID) -> (info: Option<
    &mut AnimationGroupRuntimeInfo,
>)
    ensures
        info is Some == slot_infos(*old(slots)).contains_key(id),
        info is Some ==> *info.unwrap() == slot_infos(*old(slots))[id],
        info is Some ==> slot_infos(*final(slots)) == slot_infos(*old(slots)).insert(
            id,
            *final(info.unwrap()),
        ),
        info is None ==> slot_infos(*final(slots)) == slot_infos(*old(slots)),
        slot_info_order(*final(slots)) == slot_info_order(*old(slots)),
{
    slots.inner.get_mut(DefaultKey::from(KeyData::new(id.index, id.version)))
}

/// `SecondaryMap::keys`: the keys that the map holds, each once, in the
/// order in which the map is walked, which is that of their slots.
#[verifier::external_body]
fn infos_keys(slots: &GroupInfoSlots) -> (keys: Vec<AnimationGroupID>)
    ensures
        keys@ == slot_info_order(*slots),
        keys@.no_duplicates(),
        forall|id: AnimationGroupID| keys@.contains(id) <==> slot_infos(*slots).contains_key(id),
        spec_by_slot(keys@),
{
    slots.inner
        .keys()
        .map(|key: DefaultKey| to_group_id(key.data().index(), key.data().version()))
        .collect()
}

/// The key of a group from its two parts.
pub fn to_group_id(index: u32, version: u32) -> (id: AnimationGroupID)
    ensures
        id == (AnimationGroupID { index, version }),
{
    AnimationGroupID { index, version }
}

/// The records of the groups, by key.
pub struct GroupInfoTable {
    slots: GroupInfoSlots,
}

impl GroupInfoTable {
    /// The records of the table, by key.
    pub closed spec fn infos(&self) -> Map<AnimationGroupID, AnimationGroupRuntimeInfo> {
        slot_infos(self.slots)
    }

    /// The keys of the table in the order in which a tick visits them.
    pub closed spec fn order(&self) -> Seq<AnimationGroupID> {
        slot_info_order(self.slots)
    }

    /// A table without records.
    pub fn new() -> (r: GroupInfoTable)
        ensures
            r.infos() =~= Map::<AnimationGroupID, AnimationGroupRuntimeInfo>::empty(),
    {
        GroupInfoTable { slots: infos_new() }
    }

    /// Offers a record under a key.
    pub fn insert(&mut self, id: AnimationGroupID, info: AnimationGroupRuntimeInfo) -> (held: Option<
        AnimationGroupRuntimeInfo,
    >)
        ensures
            final(self).infos() == spec_offered(old(self).infos(), id, info),
            held == if !id.spec_is_null() && old(self).infos().contains_key(id) {
                Some(old(self).infos()[id])
            } else {
                None
            },
    {
        infos_insert(&mut self.slots, id, info)
    }

    /// A copy of the record under a key.
    pub fn get(&self, id: AnimationGroupID) -> (info: Option<AnimationGroupRuntimeInfo>)
        ensures
            info == if self.infos().contains_key(id) {
                Some(self.infos()[id])
            } else {
                None
            },
    {
        infos_get(&self.slots, id)
    }

    /// Puts a record in the place of the record under a key. Does nothing
    /// if the table does not hold the key.
    pub fn set(&mut self, id: AnimationGroupID, info: AnimationGroupRuntimeInfo) -> (found: bool)
        ensures
            found == old(self).infos().contains_key(id),
            final(self).infos() == if found {
                old(self).infos().insert(id, info)
            } else {
                old(self).infos()
            },
            final(self).order() == old(self).order(),
    {
        match infos_get_mut(&mut self.slots, id) {
            Some(slot) => {
                *slot = info;
                true
            },
            None => false,
        }
    }

    /// The keys of the table, each once, in the order in which a tick
    /// visits them: by slot.
    pub fn keys(&self) -> (keys: Vec<AnimationGroupID>)
        ensures
            keys@ == self.order(),
            keys@.no_duplicates(),
            forall|id: AnimationGroupID| keys@.contains(id) <==> self.infos().contains_key(id),
            spec_by_slot(keys@),
    {
        infos_keys(&self.slots)
    }
}

/// The animations of a group, without their targets.
pub open spec fn spec_animation_infos(group: AnimationGroup) -> Seq<AnimationInfo> {
    group.spec_animations().map_values(|one: TargetAnimation| one.animation)
}

/// What making a group does to a store: the group is new-made, carries its
/// key, and sits under a key that named no group before; every other group
/// is as it was.
pub open spec fn spec_created(
    before: Map<AnimationGroupID, AnimationGroup>,
    after: Map<AnimationGroupID, AnimationGroup>,
    id: AnimationGroupID,
) -> bool {
    &&& !before.contains_key(id)
    &&& !id.spec_is_null()
    &&& after.dom() == before.dom().insert(id)
    &&& forall|other: AnimationGroupID|
        other != id && before.contains_key(other) ==> after[other] == before[other]
    &&& after[id].state() == (GroupState { id, ..GroupState::spec_new() })
    &&& after[id].spec_animations().len() == 0
}

/// A store of groups under keys that are never handed out twice.
pub trait AnimationGroupManager {
    /// The groups of the store, by key.
    spec fn groups(&self) -> Map<AnimationGroupID, AnimationGroup>;

    /// Whether the store can take one more group.
    spec fn has_room(&self) -> bool;

    /// Makes a new group and stamps its key into it.
    fn create(&mut self) -> (id: AnimationGroupID)
        requires
            old(self).has_room(),
        ensures
            spec_created(old(self).groups(), final(self).groups(), id),
    ;

    /// Makes a new group if the store can take one more, and changes
    /// nothing if it cannot.
    fn try_create(&mut self) -> (r: Option<AnimationGroupID>)
        ensures
            r is Some == old(self).has_room(),
            r is None ==> final(self).groups() == old(self).groups(),
            r matches Some(id) ==> spec_created(old(self).groups(), final(self).groups(), id),
    ;

    /// Removes a group and returns its animations, which no longer belong
    /// to any group; returns none if the key names no group.
    fn del(&mut self, id: AnimationGroupID) -> (r: Vec<AnimationInfo>)
        ensures
            final(self).groups() == old(self).groups().remove(id),
            r@ == if old(self).groups().contains_key(id) {
                spec_animation_infos(old(self).groups()[id])
            } else {
                Seq::empty()
            },
    ;

    /// A group, to change it.
    fn get_mut(&mut self, id: AnimationGroupID) -> (r: Option<&mut AnimationGroup>)
        ensures
            r is Some == old(self).groups().contains_key(id),
            r is Some ==> *r.unwrap() == old(self).groups()[id],
            r is Some ==> final(self).groups() == old(self).groups().insert(id, *final(r.unwrap())),
            r is None ==> final(self).groups() == old(self).groups(),
    ;

    /// A group, to read it.
    fn get(&self, id: AnimationGroupID) -> (r: Option<&AnimationGroup>)
        ensures
            r == if self.groups().contains_key(id) {
                Some(&self.groups()[id])
            } else {
                None
            },
    ;
}

/// The store of groups that the runtime uses by default: a slot map.
pub struct AnimationGroupManagerDefault {
    groups: GroupSlots,
}

impl Default for AnimationGroupManagerDefault {
    fn default() -> (r: AnimationGroupManagerDefault)
        ensures
            r.groups() =~= Map::<AnimationGroupID, AnimationGroup>::empty(),
    {
        AnimationGroupManagerDefault { groups: slots_new() }
    }
}

impl AnimationGroupManager for AnimationGroupManagerDefault {
    closed spec fn groups(&self) -> Map<AnimationGroupID, AnimationGroup> {
        slot_groups(self.groups)
    }

    closed spec fn has_room(&self) -> bool {
        slot_groups(self.groups).dom().len() < GROUP_LIMIT
    }

    fn create(&mut self) -> (id: AnimationGroupID) {
        let id: AnimationGroupID = slots_insert(&mut self.groups, AnimationGroup::new());
        match slots_get_mut(&mut self.groups, id) {
            Some(group) => {
                group.set_id(id);
            },
            None => {},
        }
        assert(self.groups().dom() =~= old(self).groups().dom().insert(id));
        id
    }

    fn try_create(&mut self) -> (r: Option<AnimationGroupID>) {
        if slots_len(&self.groups) < GROUP_LIMIT {
            Some(self.create())
        } else {
            None
        }
    }

    fn del(&mut self, id: AnimationGroupID) -> (r: Vec<AnimationInfo>) {
        match slots_remove(&mut self.groups, id) {
            Some(found) => {
                let mut group: AnimationGroup = found;
                group.clear()
            },
            None => Vec::new(),
        }
    }

    fn get_mut(&mut self, id: AnimationGroupID) -> (r: Option<&mut AnimationGroup>) {
        slots_get_mut(&mut self.groups, id)
    }

    fn get(&self, id: AnimationGroupID) -> (r: Option<&AnimationGroup>) {
        slots_get(&self.groups, id)
    }
}

} // verus!
