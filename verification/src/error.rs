use vstd::prelude::*;

verus! {

/// The closed set of failures the animation runtime reports.
#[derive(Debug, Clone, Copy, PartialEq, Eq, Structural)]
pub enum EAnimationError {
    /// Reserved for host-side attribute mappers.
    NotFoundAttr,
    /// The target id space is exhausted.
    KeyTargetCannotAllocMore,
    /// The attribute id space is exhausted.
    KeyTargetAttrCannotAllocMore,
    /// The value-type id space is exhausted.
    KeyAnimeDataTypeCannotAllocMore,
    /// A group was started with a running frame rate of zero.
    AnimationFramePerSecondCannotZero,
    /// A referenced curve slot is empty.
    FrameCurveNotFound,
    /// The group id is unknown.
    AnimationGroupNotFound,
    /// Start was called on a group that is already playing.
    AnimationGroupHasStarted,
    /// Pause or stop was called on an idle group.
    AnimationGroupNotPlaying,
    /// The value-type id was never registered with the runtime-info map.
    RuntimeInfoMapNotFindType,
    /// The result pool has no slot for the target.
    TargetIDNotRecordForTypeAnimationContext,
}

} // verus!
