use vstd::prelude::*;
use crate::base::{mul_div, scaled, Fixed, FrameIndex, FramePerSecond, KeyFrameDataType, FIXED_ONE};
use crate::frame_curve_manager::{FrameCurveInfo, FrameCurveInfoID};
use crate::target_modifier::IDAnimatableAttr;

verus! {

pub type AnimationID = usize;

/// One property animation: the attribute it drives and the curve, in the
/// context of its value type, that drives it.
#[derive(Debug, Clone, Copy, PartialEq, Eq, Structural)]
pub struct AnimationInfo {
    /// The attribute of the target.
    pub attr: IDAnimatableAttr,
    /// The value type of the curve.
    pub ty: KeyFrameDataType,
    /// The frame range and the design frame rate of the curve.
    pub curve_info: FrameCurveInfo,
    /// The slot of the curve in the context of its value type.
    pub curve_id: FrameCurveInfoID,
}

impl AnimationInfo {
    /// The length of the curve, in frames of a clock that runs at
    /// `running_frame_per_second`: `max_frame / design_fps * running_fps`.
    pub open spec fn spec_max_frame_for_running_speed(&self, running_frame_per_second: int) -> int {
        scaled(
            self.curve_info.spec_max_frame() * FIXED_ONE,
            running_frame_per_second,
            self.curve_info.spec_design_frame_per_second() as int,
        )
    }

    pub fn get_max_frame_for_running_speed(
        &self,
        running_frame_per_second: FramePerSecond,
    ) -> (r: Fixed)
        ensures
            r == self.spec_max_frame_for_running_speed(running_frame_per_second as int),
    {
        mul_div(
            self.curve_info.max_frame() as u64 * FIXED_ONE,
            running_frame_per_second as u64,
            self.curve_info.design_frame_per_second() as u64,
        )
    }

    pub fn max_frame(&self) -> (r: FrameIndex)
        ensures
            r == self.curve_info.spec_max_frame(),
    {
        self.curve_info.max_frame()
    }

    pub fn min_frame(&self) -> (r: FrameIndex)
        ensures
            r == self.curve_info.spec_min_frame(),
    {
        self.curve_info.min_frame()
    }

    pub fn design_frame_per_second(&self) -> (r: FrameIndex)
        ensures
            r == self.curve_info.spec_design_frame_per_second(),
    {
        self.curve_info.design_frame_per_second()
    }

    pub fn ty(&self) -> (r: KeyFrameDataType)
        ensures
            r == self.ty,
    {
        self.ty
    }

    pub fn attr(&self) -> (r: IDAnimatableAttr)
        ensures
            r == self.attr,
    {
        self.attr
    }

    pub fn curve_id(&self) -> (r: FrameCurveInfoID)
        ensures
            r == self.curve_id,
    {
        self.curve_id
    }
}

} // verus!
