use vstd::prelude::*;
use crate::animation_group::AnimationGroupID;
use crate::error::EAnimationError;

verus! {

/// What a callback asks for when it returns.
#[derive(Debug, Clone, Copy, PartialEq, Eq, Structural)]
pub enum EAnimationEventResult {
    /// Stay registered.
    Stay,
    /// Take the callback off the list.
    RemoveListen,
}

/// The kinds of events that a group raises.
#[derive(Debug, Clone, Copy, PartialEq, Eq, Structural)]
pub enum EAnimationEvent {
    Nothing,
    Start,
    End,
    Loop,
    FrameEvent,
}

/// What a callback returns.
pub type ListenResult = Result<EAnimationEventResult, EAnimationError>;

/// The callbacks of one group, by event. The callbacks of an event are
/// called in the order in which they were registered; one that asks to be
/// removed, or fails, is off the list afterwards.
pub struct AnimationListener<S, E, L, F> {
    pub group: AnimationGroupID,
    pub on_start: Vec<S>,
    pub on_end: Vec<E>,
    pub on_loop: Vec<L>,
    pub on_frame_event: Vec<F>,
}

/// Whether a callback that returned `outcome` stays registered.
pub open spec fn spec_stays(outcome: ListenResult) -> bool {
    outcome == Ok::<EAnimationEventResult, EAnimationError>(EAnimationEventResult::Stay)
}

/// The callbacks that stay registered, in their order, when the callback at
/// each index returned the outcome at that index.
pub open spec fn spec_kept<C>(callbacks: Seq<C>, outcomes: Seq<ListenResult>) -> Seq<C>
    decreases callbacks.len(),
{
    if callbacks.len() == 0 || outcomes.len() != callbacks.len() {
        Seq::empty()
    } else if spec_stays(outcomes.last()) {
        spec_kept(callbacks.drop_last(), outcomes.drop_last()).push(callbacks.last())
    } else {
        spec_kept(callbacks.drop_last(), outcomes.drop_last())
    }
}

impl<S, E, L, F> AnimationListener<S, E, L, F> {
    /// A listener of a group, with no callback.
    pub fn new(group: AnimationGroupID) -> (r: AnimationListener<S, E, L, F>)
        ensures
            r.group == group,
            r.on_start@.len() == 0,
            r.on_end@.len() == 0,
            r.on_loop@.len() == 0,
            r.on_frame_event@.len() == 0,
    {
        AnimationListener {
            group,
            on_start: Vec::new(),
            on_end: Vec::new(),
            on_loop: Vec::new(),
            on_frame_event: Vec::new(),
        }
    }

    /// Calls the start callbacks, and keeps those that ask to stay.
    pub fn on_start(&mut self) where S: Fn() -> ListenResult
        requires
            forall|i: int| 0 <= i < old(self).on_start@.len() ==> call_requires(
                #[trigger] old(self).on_start@[i],
                (),
            ),
        ensures
            final(self).group == old(self).group,
            final(self).on_end == old(self).on_end,
            final(self).on_loop == old(self).on_loop,
            final(self).on_frame_event == old(self).on_frame_event,
            spec_notified(old(self).on_start@, final(self).on_start@),
    {
        notify(&mut self.on_start);
    }

    /// Calls the end callbacks, and keeps those that ask to stay.
    pub fn on_end(&mut self) where E: Fn() -> ListenResult
        requires
            forall|i: int| 0 <= i < old(self).on_end@.len() ==> call_requires(
                #[trigger] old(self).on_end@[i],
                (),
            ),
        ensures
            final(self).group == old(self).group,
            final(self).on_start == old(self).on_start,
            final(self).on_loop == old(self).on_loop,
            final(self).on_frame_event == old(self).on_frame_event,
            spec_notified(old(self).on_end@, final(self).on_end@),
    {
        notify(&mut self.on_end);
    }

    /// Calls the loop callbacks with the number of loops completed, and
    /// keeps those that ask to stay.
    pub fn on_loop(&mut self, loop_count: u32) where L: Fn(u32) -> ListenResult
        requires
            forall|i: int| 0 <= i < old(self).on_loop@.len() ==> call_requires(
                #[trigger] old(self).on_loop@[i],
                (loop_count,),
            ),
        ensures
            final(self).group == old(self).group,
            final(self).on_start == old(self).on_start,
            final(self).on_end == old(self).on_end,
            final(self).on_frame_event == old(self).on_frame_event,
            spec_notified_loop(old(self).on_loop@, final(self).on_loop@, loop_count),
    {
        let mut temp: Vec<L> = Vec::new();
        std::mem::swap(&mut self.on_loop, &mut temp);
        let ghost mut outcomes: Seq<ListenResult> = Seq::empty();
        for call in it: temp
            invariant
                it.seq() == old(self).on_loop@,
                self.group == old(self).group,
                self.on_start == old(self).on_start,
                self.on_end == old(self).on_end,
                self.on_frame_event == old(self).on_frame_event,
                forall|i: int|
                    0 <= i < it.seq().len() ==> call_requires(
                        #[trigger] it.seq()[i],
                        (loop_count,),
                    ),
                outcomes.len() == it.index(),
                forall|i: int|
                    0 <= i < outcomes.len() ==> call_ensures(
                        it.seq()[i],
                        (loop_count,),
                        #[trigger] outcomes[i],
                    ),
                self.on_loop@ == spec_kept(it.seq().take(it.index() as int), outcomes),
        {
            let outcome: ListenResult = call(loop_count);
            proof {
                assert(it.seq().take(it.index() + 1).drop_last() =~= it.seq().take(
                    it.index() as int,
                ));
                assert(outcomes.push(outcome).drop_last() =~= outcomes);
                outcomes = outcomes.push(outcome);
            }
            match outcome {
                Ok(EAnimationEventResult::Stay) => {
                    self.on_loop.push(call);
                },
                _ => {},
            }
        }
        proof {
            let all = old(self).on_loop@;
            assert(all.take(all.len() as int) =~= all);
        }
    }

    /// Calls the frame-event callbacks, each with its own copy of the
    /// payloads, and keeps those that ask to stay.
    pub fn on_frame<D: Clone>(&mut self, frame_datas: Vec<D>) where F: Fn(Vec<D>) -> ListenResult
        requires
            forall|i: int, datas: Vec<D>|
                0 <= i < old(self).on_frame_event@.len() ==> #[trigger] call_requires(
                    old(self).on_frame_event@[i],
                    (datas,),
                ),
        ensures
            final(self).group == old(self).group,
            final(self).on_start == old(self).on_start,
            final(self).on_end == old(self).on_end,
            final(self).on_loop == old(self).on_loop,
            spec_notified_frames(
                old(self).on_frame_event@,
                final(self).on_frame_event@,
                frame_datas,
            ),
    {
        let mut temp: Vec<F> = Vec::new();
        std::mem::swap(&mut self.on_frame_event, &mut temp);
        let ghost mut outcomes: Seq<ListenResult> = Seq::empty();
        let ghost mut copies: Seq<Vec<D>> = Seq::empty();
        for call in it: temp
            invariant
                it.seq() == old(self).on_frame_event@,
                self.group == old(self).group,
                self.on_start == old(self).on_start,
                self.on_end == old(self).on_end,
                self.on_loop == old(self).on_loop,
                forall|i: int, datas: Vec<D>|
                    0 <= i < it.seq().len() ==> #[trigger] call_requires(it.seq()[i], (datas,)),
                outcomes.len() == it.index(),
                copies.len() == it.index(),
                forall|i: int|
                    0 <= i < outcomes.len() ==> spec_copy_of(frame_datas, #[trigger] copies[i]),
                forall|i: int|
                    0 <= i < outcomes.len() ==> call_ensures(
                        it.seq()[i],
                        (copies[i],),
                        #[trigger] outcomes[i],
                    ),
                self.on_frame_event@ == spec_kept(it.seq().take(it.index() as int), outcomes),
        {
            let datas: Vec<D> = frame_datas.clone();
            let outcome: ListenResult = call(datas);
            proof {
                assert(it.seq().take(it.index() + 1).drop_last() =~= it.seq().take(
                    it.index() as int,
                ));
                assert(outcomes.push(outcome).drop_last() =~= outcomes);
                outcomes = outcomes.push(outcome);
                copies = copies.push(datas);
            }
            match outcome {
                Ok(EAnimationEventResult::Stay) => {
                    self.on_frame_event.push(call);
                },
                _ => {},
            }
        }
        proof {
            let all = old(self).on_frame_event@;
            assert(all.take(all.len() as int) =~= all);
        }
    }
}

/// Whether `copy` is what cloning `datas` gives: as long, and each payload a
/// clone of the payload at its index.
pub open spec fn spec_copy_of<D: Clone>(datas: Vec<D>, copy: Vec<D>) -> bool {
    &&& copy@.len() == datas@.len()
    &&& forall|k: int| 0 <= k < datas@.len() ==> cloned(#[trigger] datas@[k], copy@[k])
}

/// What calling the loop callbacks with a loop count does to their list.
pub open spec fn spec_notified_loop<C: Fn(u32) -> ListenResult>(
    before: Seq<C>,
    after: Seq<C>,
    loop_count: u32,
) -> bool {
    exists|outcomes: Seq<ListenResult>|
        {
            &&& outcomes.len() == before.len()
            &&& forall|i: int|
                0 <= i < outcomes.len() ==> call_ensures(
                    before[i],
                    (loop_count,),
                    #[trigger] outcomes[i],
                )
            &&& after == spec_kept(before, outcomes)
        }
}

/// What calling the frame-event callbacks, each with its own copy of the
/// payloads, does to their list.
pub open spec fn spec_notified_frames<D: Clone, C: Fn(Vec<D>) -> ListenResult>(
    before: Seq<C>,
    after: Seq<C>,
    frame_datas: Vec<D>,
) -> bool {
    exists|outcomes: Seq<ListenResult>, copies: Seq<Vec<D>>|
        {
            &&& outcomes.len() == before.len()
            &&& copies.len() == outcomes.len()
            &&& forall|i: int|
                0 <= i < outcomes.len() ==> spec_copy_of(frame_datas, #[trigger] copies[i])
            &&& forall|i: int|
                0 <= i < outcomes.len() ==> call_ensures(
                    before[i],
                    (copies[i],),
                    #[trigger] outcomes[i],
                )
            &&& after == spec_kept(before, outcomes)
        }
}

/// What calling the callbacks of a list does to the list: every callback
/// returned some outcome, and those that returned `Stay` are left, in their
/// order.
pub open spec fn spec_notified<C: Fn() -> ListenResult>(before: Seq<C>, after: Seq<C>) -> bool {
    exists|outcomes: Seq<ListenResult>|
        {
            &&& outcomes.len() == before.len()
            &&& forall|i: int|
                0 <= i < outcomes.len() ==> call_ensures(before[i], (), #[trigger] outcomes[i])
            &&& after == spec_kept(before, outcomes)
        }
}

fn notify<C: Fn() -> ListenResult>(callbacks: &mut Vec<C>)
    requires
        forall|i: int| 0 <= i < old(callbacks)@.len() ==> call_requires(
            #[trigger] old(callbacks)@[i],
            (),
        ),
    ensures
        spec_notified(old(callbacks)@, final(callbacks)@),
{
    let mut temp: Vec<C> = Vec::new();
    std::mem::swap(callbacks, &mut temp);
    let ghost mut outcomes: Seq<ListenResult> = Seq::empty();
    for call in it: temp
        invariant
            it.seq() == old(callbacks)@,
            forall|i: int| 0 <= i < it.seq().len() ==> call_requires(#[trigger] it.seq()[i], ()),
            outcomes.len() == it.index(),
            forall|i: int|
                0 <= i < outcomes.len() ==> call_ensures(it.seq()[i], (), #[trigger] outcomes[i]),
            callbacks@ == spec_kept(it.seq().take(it.index() as int), outcomes),
    {
        let outcome: ListenResult = call();
        proof {
            assert(it.seq().take(it.index() + 1).drop_last() =~= it.seq().take(it.index() as int));
            assert(outcomes.push(outcome).drop_last() =~= outcomes);
            outcomes = outcomes.push(outcome);
        }
        match outcome {
            Ok(EAnimationEventResult::Stay) => {
                callbacks.push(call);
            },
            _ => {},
        }
    }
    proof {
        let all = old(callbacks)@;
        assert(all.take(all.len() as int) =~= all);
    }
}

} // verus!
