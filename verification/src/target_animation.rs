use vstd::prelude::*;
use crate::animation::AnimationInfo;
use crate::target_modifier::IDAnimatableTarget;

verus! {

/// An animation bound to the target it drives.
#[derive(Debug, Clone, Copy, PartialEq, Eq, Structural)]
pub struct TargetAnimation {
    pub target: IDAnimatableTarget,
    pub animation: AnimationInfo,
}

} // verus!
