//! A data-driven property-animation runtime on fixed-point numbers.
//!
//! A tick has three steps. The orchestrator advances the clock of every
//! running group and lets each group stage, for each of its animations, at
//! which position which curve is to be sampled for which target. The context
//! of each value type evaluates what is staged for its curves and puts the
//! results into a pool, by target. The host takes the results of each target
//! out of the pool and applies them.

pub mod amount;
pub mod animation;
pub mod animation_group;
pub mod animation_group_manager;
pub mod animation_listener;
pub mod animation_result_pool;
pub mod base;
pub mod curve_frame_event;
pub mod error;
pub mod frame_curve_manager;
pub mod loop_mode;
pub mod runtime_info;
pub mod target_animation;
pub mod target_modifier;
pub mod type_animation_context;
