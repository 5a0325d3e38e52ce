//! Skeletal animation: the joints of a skinned asset as a flat list with
//! parents before children, keyframe channels that are sampled over time, and
//! the pass that poses the skeleton and gives its skinning transforms.
//!
//! Scalars are held as bit patterns and ordered, never computed with: what is
//! arithmetic on them (blending two values, composing two transforms) is
//! handed in by the caller as a function.

pub mod animation_system;
pub mod format_converter;
pub mod geometry;
pub mod input;
pub mod skin;
