use vstd::prelude::*;
use crate::animation_system::animation::channel_error;
use crate::animation_system::animation::AnimatedProperty;
use crate::animation_system::animation::AnimationChannel;
use crate::animation_system::animation::ChannelError;
use crate::animation_system::animation::Sampler;
use crate::animation_system::hierarchy::NO_JOINT;
use crate::geometry::quaternion::Quaternion;
use crate::geometry::scalar::Scalar;
use crate::geometry::vec3::Vec3;

verus! {

/// How an asset asks for the values between two keyframes.
#[derive(Clone, Copy, Debug, PartialEq, Eq, Structural)]
pub enum Interpolation {
    Step,
    Linear,
    CubicSpline,
}

/// The values that an asset gives for the keyframes of one channel, as one
/// list. For a spline the list holds the in-tangents of all keyframes, then
/// their values, then their out-tangents.
#[derive(Debug)]
pub enum ChannelOutputs {
    Translations(Vec<Vec3>),
    Rotations(Vec<Quaternion>),
    Scales(Vec<Vec3>),
    /// Weights of morph targets, which are not animated.
    MorphTargetWeights,
}

/// Why a channel of an asset is left out.
#[derive(Clone, Copy, Debug, PartialEq, Eq, Structural)]
pub enum ChannelLoadError {
    /// The channel drives a node that is no joint of the skin.
    NotAJoint,
    /// The table of internal ids has no id for the node.
    Unmapped,
    /// The channel drives something else than a placement.
    Unsupported,
    /// A spline has fewer than three values per keyframe.
    TooFewValues,
    /// The keyframes make no channel.
    Keyframes(ChannelError),
}

/// What [`convert_sampler`] makes of a list of values for `length`
/// keyframes; `None` where a spline has too few values.
pub open spec fn sampler_of<T: Copy>(
    values: Seq<T>,
    interpolation: Interpolation,
    length: nat,
    sampler: Option<Sampler<T>>,
) -> bool {
    match interpolation {
        Interpolation::Step => sampler matches Some(Sampler::Step(v)) && v@ == values,
        Interpolation::Linear => sampler matches Some(Sampler::Linear(v)) && v@ == values,
        Interpolation::CubicSpline => if values.len() < 3 * length {
            sampler is None
        } else {
            sampler matches Some(Sampler::Cubic(start, middle, end)) && start@ == values.subrange(
                0,
                length as int,
            ) && middle@ == values.subrange(length as int, 2 * length as int) && end@
                == values.subrange(2 * length as int, 3 * length as int)
        },
    }
}

/// A copy of the part of `values` from `from` up to `to`.
fn copy_range<T: Copy>(values: &Vec<T>, from: usize, to: usize) -> (r: Vec<T>)
    requires
        from <= to <= values@.len(),
    ensures
        r@ == values@.subrange(from as int, to as int),
{
    let mut part: Vec<T> = Vec::new();
    let mut i: usize = from;
    while i < to
        invariant
            from <= i <= to,
            to <= values@.len(),
            part@ == values@.subrange(from as int, i as int),
        decreases to - i,
    {
        part.push(values[i]);
        assert(part@ =~= values@.subrange(from as int, i + 1));
        i += 1;
    }
    part
}

/// Makes a sampler of the values that an asset gives for `length`
/// keyframes. The values of a spline are parted into in-tangents, values
/// and out-tangents; what follows the third part is dropped.
pub fn convert_sampler<T: Copy>(values: Vec<T>, interpolation: Interpolation, length: usize) -> (r:
    Option<Sampler<T>>)
    ensures
        sampler_of(values@, interpolation, length as nat, r),
{
    match interpolation {
        Interpolation::Step => Some(Sampler::Step(values)),
        Interpolation::Linear => Some(Sampler::Linear(values)),
        Interpolation::CubicSpline => {
            if values.len() / 3 < length {
                return None;
            }
            let start = copy_range(&values, 0, length);
            let middle = copy_range(&values, length, 2 * length);
            let end = copy_range(&values, 2 * length, 3 * length);
            Some(Sampler::Cubic(start, middle, end))
        },
    }
}

/// Whether `list` holds `x`.
fn holds(list: &[usize], x: usize) -> (r: bool)
    ensures
        r == list@.contains(x),
{
    let mut i: usize = 0;
    while i < list.len()
        invariant
            i <= list@.len(),
            forall|k: int| 0 <= k < i ==> list@[k] != x,
        decreases list@.len() - i,
    {
        if list[i] == x {
            return true;
        }
        i += 1;
    }
    false
}

/// The property that a channel drives, with a sampler of its values.
fn convert_outputs(outputs: ChannelOutputs, interpolation: Interpolation, length: usize) -> (r:
    Result<AnimatedProperty, ChannelLoadError>)
    ensures
        property_of(outputs, interpolation, length as nat, r),
{
    match outputs {
        ChannelOutputs::Translations(values) => match convert_sampler(
            values,
            interpolation,
            length,
        ) {
            Some(sampler) => Ok(AnimatedProperty::Translation(sampler)),
            None => Err(ChannelLoadError::TooFewValues),
        },
        ChannelOutputs::Rotations(values) => match convert_sampler(values, interpolation, length) {
            Some(sampler) => Ok(AnimatedProperty::Rotation(sampler)),
            None => Err(ChannelLoadError::TooFewValues),
        },
        ChannelOutputs::Scales(values) => match convert_sampler(values, interpolation, length) {
            Some(sampler) => Ok(AnimatedProperty::Scale(sampler)),
            None => Err(ChannelLoadError::TooFewValues),
        },
        ChannelOutputs::MorphTargetWeights => Err(ChannelLoadError::Unsupported),
    }
}

/// What the values of a channel come to: the property with its sampler,
/// or the reason why there is none.
pub open spec fn property_of(
    outputs: ChannelOutputs,
    interpolation: Interpolation,
    length: nat,
    property: Result<AnimatedProperty, ChannelLoadError>,
) -> bool {
    match outputs {
        ChannelOutputs::Translations(values) => match property {
            Ok(AnimatedProperty::Translation(sampler)) => sampler_of(
                values@,
                interpolation,
                length,
                Some(sampler),
            ),
            Err(ChannelLoadError::TooFewValues) => sampler_of(
                values@,
                interpolation,
                length,
                None,
            ),
            _ => false,
        },
        ChannelOutputs::Rotations(values) => match property {
            Ok(AnimatedProperty::Rotation(sampler)) => sampler_of(
                values@,
                interpolation,
                length,
                Some(sampler),
            ),
            Err(ChannelLoadError::TooFewValues) => sampler_of(
                values@,
                interpolation,
                length,
                None,
            ),
            _ => false,
        },
        ChannelOutputs::Scales(values) => match property {
            Ok(AnimatedProperty::Scale(sampler)) => sampler_of(
                values@,
                interpolation,
                length,
                Some(sampler),
            ),
            Err(ChannelLoadError::TooFewValues) => sampler_of(
                values@,
                interpolation,
                length,
                None,
            ),
            _ => false,
        },
        ChannelOutputs::MorphTargetWeights => property == Err::<
            AnimatedProperty,
            ChannelLoadError,
        >(ChannelLoadError::Unsupported),
    }
}

/// Whether a channel that drives `target` is kept, by the node alone.
pub open spec fn target_error(target: usize, joints: Seq<usize>, mapping: Seq<usize>) -> Option<
    ChannelLoadError,
> {
    if !joints.contains(target) {
        Some(ChannelLoadError::NotAJoint)
    } else if target >= mapping.len() || mapping[target as int] == NO_JOINT {
        Some(ChannelLoadError::Unmapped)
    } else {
        None
    }
}

/// Whether `result` is what the data of one channel of an asset come to: a
/// channel for the internal id of the node `target` with the keyframes
/// `timestamps` and a sampler of `outputs`, or the first reason, in the order
/// of [`ChannelLoadError`], why the channel is left out.
pub open spec fn channel_of(
    target: usize,
    joints: Seq<usize>,
    mapping: Seq<usize>,
    timestamps: Seq<Scalar>,
    outputs: ChannelOutputs,
    interpolation: Interpolation,
    result: Result<AnimationChannel, ChannelLoadError>,
) -> bool {
    match target_error(target, joints, mapping) {
        Some(e) => result matches Err(found) && found == e,
        None => match result {
            Ok(channel) => {
                &&& channel.is_valid()
                &&& channel.joint() == mapping[target as int]
                &&& channel.times() == timestamps
                &&& property_of(outputs, interpolation, timestamps.len(), Ok(channel.property()))
            },
            Err(ChannelLoadError::Keyframes(e)) => exists|property: AnimatedProperty|
                #[trigger] property_of(outputs, interpolation, timestamps.len(), Ok(property))
                    && channel_error(property, timestamps) == Some(e),
            Err(e) => property_of(outputs, interpolation, timestamps.len(), Err(e)),
        },
    }
}

/// Makes a channel of what an asset holds for it: the node it drives, the
/// skin's joints, the table from nodes to internal ids, the times of the
/// keyframes and the values for them.
pub fn load_channel(
    target: usize,
    joints: &[usize],
    mapping: &[usize],
    timestamps: Vec<Scalar>,
    outputs: ChannelOutputs,
    interpolation: Interpolation,
) -> (r: Result<AnimationChannel, ChannelLoadError>)
    ensures
        channel_of(target, joints@, mapping@, timestamps@, outputs, interpolation, r),
{
    if !holds(joints, target) {
        return Err(ChannelLoadError::NotAJoint);
    }
    if target >= mapping.len() || mapping[target] == NO_JOINT {
        return Err(ChannelLoadError::Unmapped);
    }
    let node_id: usize = mapping[target];
    let frame_count: usize = timestamps.len();
    let animated_property = match convert_outputs(outputs, interpolation, frame_count) {
        Ok(property) => property,
        Err(e) => {
            return Err(e);
        },
    };
    match AnimationChannel::new(node_id, animated_property, timestamps) {
        Ok(channel) => Ok(channel),
        Err(e) => Err(ChannelLoadError::Keyframes(e)),
    }
}

} // verus!
