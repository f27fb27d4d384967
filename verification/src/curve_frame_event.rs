use vstd::prelude::*;
use crate::base::{fixed_mul, fixed_product, Fixed, FrameIndex, FIXED_ONE};

verus! {

pub type FrameEventData = u16;

/// A schedule of payloads on frames: the frames ascend, and payloads on
/// the same frame keep the order in which they were added.
pub struct CurveFrameEvent<D: Clone> {
    total_frame: Fixed,
    events: Vec<FrameIndex>,
    datas: Vec<D>,
}

/// The frames ascend.
pub open spec fn spec_sorted(events: Seq<FrameIndex>) -> bool {
    forall|i: int, j: int| 0 <= i <= j < events.len() ==> events[i] <= events[j]
}

/// The number of leading frames that lie before `frame`; in an ascending
/// sequence, the index of the first frame at or after `frame`.
pub open spec fn spec_lower_bound(events: Seq<FrameIndex>, frame: int) -> int
    decreases events.len(),
{
    if events.len() == 0 {
        0
    } else if events.last() >= frame {
        spec_lower_bound(events.drop_last(), frame)
    } else {
        events.len() as int
    }
}

/// The frame that a sampling position falls on: the whole part of
/// `amount * total_frame`, cut off at the largest frame index.
pub open spec fn spec_frame_at(amount: Fixed, total_frame: Fixed) -> int {
    if fixed_product(amount as int, total_frame as int) / (FIXED_ONE as int) > FrameIndex::MAX {
        FrameIndex::MAX as int
    } else {
        fixed_product(amount as int, total_frame as int) / (FIXED_ONE as int)
    }
}

/// In an ascending sequence the lower bound splits the frames: those
/// before it lie before `frame`, those from it on do not.
pub proof fn lemma_lower_bound(events: Seq<FrameIndex>, frame: int)
    requires
        spec_sorted(events),
    ensures
        0 <= spec_lower_bound(events, frame) <= events.len(),
        forall|i: int| 0 <= i < spec_lower_bound(events, frame) ==> events[i] < frame,
        forall|i: int| spec_lower_bound(events, frame) <= i < events.len() ==> events[i] >= frame,
    decreases events.len(),
{
    if events.len() > 0 {
        let front = events.drop_last();
        if events.last() >= frame {
            assert forall|i: int, j: int| 0 <= i <= j < front.len() implies front[i] <= front[j] by {
                assert(events[i] <= events[j]);
            }
            lemma_lower_bound(front, frame);
            assert forall|i: int| 0 <= i < spec_lower_bound(events, frame) implies events[i]
                < frame by {
                assert(front[i] < frame);
            }
            assert forall|i: int| spec_lower_bound(events, frame) <= i < events.len() implies events[i]
                >= frame by {
                if i < front.len() {
                    assert(front[i] >= frame);
                }
            }
        } else {
            assert forall|i: int| 0 <= i < events.len() implies events[i] < frame by {
                assert(events[i] <= events[events.len() - 1]);
            }
        }
    }
}

/// An index that splits an ascending sequence at `frame` is the lower
/// bound.
pub proof fn lemma_lower_bound_unique(events: Seq<FrameIndex>, frame: int, index: int)
    requires
        spec_sorted(events),
        0 <= index <= events.len(),
        forall|i: int| 0 <= i < index ==> events[i] < frame,
        forall|i: int| index <= i < events.len() ==> events[i] >= frame,
    ensures
        spec_lower_bound(events, frame) == index,
{
    lemma_lower_bound(events, frame);
    let bound = spec_lower_bound(events, frame);
    if bound < index {
        assert(events[bound] < frame);
    } else if index < bound {
        assert(events[index] >= frame);
    }
}

fn lower_bound(events: &Vec<FrameIndex>, frame: u32) -> (index: usize)
    requires
        spec_sorted(events@),
    ensures
        index == spec_lower_bound(events@, frame as int),
        index <= events@.len(),
{
    let mut low: usize = 0;
    let mut high: usize = events.len();
    while low < high
        invariant
            low <= high <= events@.len(),
            spec_sorted(events@),
            forall|i: int| 0 <= i < low ==> events@[i] < frame,
            forall|i: int| high <= i < events@.len() ==> events@[i] >= frame,
        decreases high - low,
    {
        let middle: usize = low + (high - low) / 2;
        if (events[middle] as u32) < frame {
            low = middle + 1;
        } else {
            high = middle;
        }
    }
    proof {
        lemma_lower_bound_unique(events@, frame as int, low as int);
    }
    low
}

fn frame_at(amount: Fixed, total_frame: Fixed) -> (frame: FrameIndex)
    ensures
        frame == spec_frame_at(amount, total_frame),
{
    let whole: u64 = fixed_mul(amount, total_frame) / FIXED_ONE;
    if whole > FrameIndex::MAX as u64 {
        FrameIndex::MAX
    } else {
        whole as u16
    }
}

impl<D: Clone> CurveFrameEvent<D> {
    /// The number of frames that one unit of sampling position spans.
    pub closed spec fn spec_total_frame(&self) -> Fixed {
        self.total_frame
    }

    /// The frames of the schedule.
    pub closed spec fn spec_events(&self) -> Seq<FrameIndex> {
        self.events@
    }

    /// The payloads of the schedule, each on the frame at its index.
    pub closed spec fn spec_datas(&self) -> Seq<D> {
        self.datas@
    }

    /// Each frame has its payload, and the frames ascend.
    pub open spec fn wf(&self) -> bool {
        &&& self.spec_events().len() == self.spec_datas().len()
        &&& spec_sorted(self.spec_events())
    }

    /// The index at which a sampling position enters the schedule.
    pub open spec fn spec_index_at(&self, amount: Fixed) -> int {
        spec_lower_bound(self.spec_events(), spec_frame_at(amount, self.spec_total_frame()))
    }

    /// Whether the sampling position passed over a payload on its way
    /// from `amount_last` to `amount`.
    pub open spec fn spec_passed(&self, amount_last: Fixed, amount: Fixed) -> bool {
        amount_last != amount && self.spec_index_at(amount_last) < self.spec_index_at(amount)
    }

    /// Whether `found` are copies of the payloads that the sampling
    /// position passed over on its way from `amount_last` to `amount`, in
    /// their order.
    pub open spec fn spec_found(&self, amount_last: Fixed, amount: Fixed, found: Vec<D>) -> bool {
        &&& found@.len() == self.spec_index_at(amount) - self.spec_index_at(amount_last)
        &&& forall|k: int|
            0 <= k < found@.len() ==> cloned(
                #[trigger] self.spec_datas()[self.spec_index_at(amount_last) + k],
                found@[k],
            )
    }

    /// An empty schedule.
    pub fn new(total_frame: Fixed) -> (r: CurveFrameEvent<D>)
        ensures
            r.wf(),
            r.spec_total_frame() == total_frame,
            r.spec_events().len() == 0,
    {
        CurveFrameEvent { total_frame, events: Vec::new(), datas: Vec::new() }
    }

    /// Puts a payload on a frame, behind the payloads that are already on
    /// that frame.
    pub fn add(&mut self, frame: FrameIndex, data: D)
        requires
            old(self).wf(),
        ensures
            final(self).wf(),
            final(self).spec_total_frame() == old(self).spec_total_frame(),
            final(self).spec_events() == old(self).spec_events().insert(
                spec_lower_bound(old(self).spec_events(), frame + 1),
                frame,
            ),
            final(self).spec_datas() == old(self).spec_datas().insert(
                spec_lower_bound(old(self).spec_events(), frame + 1),
                data,
            ),
    {
        let index: usize = lower_bound(&self.events, frame as u32 + 1);
        proof {
            lemma_lower_bound(self.events@, frame + 1);
            let after = self.events@.insert(index as int, frame);
            assert forall|i: int, j: int| 0 <= i <= j < after.len() implies after[i] <= after[j] by {
                if i < index && j > index {
                    assert(self.events@[i] <= self.events@[j - 1]);
                } else if i > index {
                    assert(self.events@[i - 1] <= self.events@[j - 1]);
                }
            }
        }
        self.events.insert(index, frame);
        self.datas.insert(index, data);
    }

    /// The payloads that the sampling position passed over on its way from
    /// `amount_last` to `amount`: those on the frames from the frame of
    /// `amount_last` up to, but not including, the frame of `amount`. None
    /// if there is no such payload.
    pub fn query(&self, amount_last: Fixed, amount: Fixed) -> (r: Option<Vec<D>>)
        requires
            self.wf(),
        ensures
            r is Some <==> self.spec_passed(amount_last, amount),
            r matches Some(found) ==> self.spec_found(amount_last, amount, found),
    {
        if amount_last != amount {
            let last: FrameIndex = frame_at(amount_last, self.total_frame);
            let curr: FrameIndex = frame_at(amount, self.total_frame);
            let last_index: usize = lower_bound(&self.events, last as u32);
            let curr_index: usize = lower_bound(&self.events, curr as u32);
            let mut result: Vec<D> = Vec::new();
            let mut i: usize = last_index;
            while i < curr_index
                invariant
                    last_index <= i,
                    last_index <= curr_index ==> i <= curr_index,
                    curr_index <= self.datas@.len(),
                    last_index <= curr_index ==> result@.len() == i - last_index,
                    last_index > curr_index ==> result@.len() == 0,
                    forall|k: int|
                        0 <= k < result@.len() ==> cloned(
                            #[trigger] self.datas@[last_index + k],
                            result@[k],
                        ),
                decreases curr_index - i,
            {
                let data: D = self.datas[i].clone();
                result.push(data);
                i = i + 1;
            }
            if result.len() > 0 {
                Some(result)
            } else {
                None
            }
        } else {
            None
        }
    }
}

} // verus!
