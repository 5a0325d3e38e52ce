use vstd::prelude::*;
use crate::geometry::quaternion::Quaternion;
use crate::geometry::scalar::Scalar;
use crate::geometry::vec3::Vec3;

verus! {

/// The keyframe values of one channel, and how to go from one to the next.
#[derive(Debug)]
pub enum Sampler<T: Copy> {
    /// One value per keyframe, held until the next keyframe.
    Step(Vec<T>),
    /// One value per keyframe, blended in a straight line.
    Linear(Vec<T>),
    /// Per keyframe an in-tangent, a value and an out-tangent, in three
    /// lists in this order, blended as a cubic Hermite spline.
    Cubic(Vec<T>, Vec<T>, Vec<T>),
}

/// A time between two keyframes: the time itself, and the times of the
/// keyframe before it and of the keyframe after it.
#[derive(Clone, Copy, Debug, PartialEq, Eq, Structural)]
pub struct Span {
    pub t: Scalar,
    pub t_min: Scalar,
    pub t_max: Scalar,
}

/// What a sampler gives for one time: a value as it stands, or the values
/// to blend and the span to blend them over. The blending is arithmetic on
/// scalars and is left to the caller.
#[derive(Clone, Copy, Debug, PartialEq, Eq, Structural)]
pub enum Sample<T> {
    Value(T),
    /// Blend `from` and `to` in a straight line (along the arc, for
    /// rotations).
    Linear { from: T, to: T, span: Span },
    /// Blend `from` and `to` as a Hermite spline that leaves `from` along
    /// `out_tangent` and arrives at `to` along `in_tangent`.
    Cubic { from: T, out_tangent: T, to: T, in_tangent: T, span: Span },
}

impl<T: Copy> Sampler<T> {
    /// The list of the keyframe values.
    pub open spec fn values(&self) -> Seq<T> {
        match self {
            Sampler::Step(values) => values@,
            Sampler::Linear(values) => values@,
            Sampler::Cubic(_, values, _) => values@,
        }
    }

    /// Whether the sampler holds what `count` keyframes need: `count` values
    /// and, for a spline, as many tangents of each kind.
    pub open spec fn fits(&self, count: nat) -> bool {
        match self {
            Sampler::Step(values) => values@.len() == count,
            Sampler::Linear(values) => values@.len() == count,
            Sampler::Cubic(in_tangents, values, out_tangents) => {
                &&& in_tangents@.len() == count
                &&& values@.len() == count
                &&& out_tangents@.len() == count
            },
        }
    }

    /// What the sampler gives between keyframe `index` and the next one.
    pub open spec fn between(&self, index: int, span: Span) -> Sample<T> {
        match self {
            Sampler::Step(values) => Sample::Value(values@[index]),
            Sampler::Linear(values) => Sample::Linear {
                from: values@[index],
                to: values@[index + 1],
                span,
            },
            Sampler::Cubic(in_tangents, values, out_tangents) => Sample::Cubic {
                from: values@[index],
                out_tangent: out_tangents@[index],
                to: values@[index + 1],
                in_tangent: in_tangents@[index + 1],
                span,
            },
        }
    }

    /// Whether the lists are of one length each.
    pub fn has_keyframes(&self, count: usize) -> (r: bool)
        ensures
            r == self.fits(count as nat),
    {
        match self {
            Sampler::Step(values) => values.len() == count,
            Sampler::Linear(values) => values.len() == count,
            Sampler::Cubic(in_tangents, values, out_tangents) => {
                in_tangents.len() == count && values.len() == count && out_tangents.len() == count
            },
        }
    }

    /// The value of keyframe `index`, whatever the way of blending.
    pub fn get_value(&self, index: usize) -> (r: T)
        requires
            index < self.values().len(),
        ensures
            r == self.values()[index as int],
    {
        match self {
            Sampler::Cubic(_, values, _) => values[index],
            Sampler::Step(values) => values[index],
            Sampler::Linear(values) => values[index],
        }
    }

    /// What to blend at time `t` between keyframe `index`, at time `t_min`,
    /// and the next keyframe, at time `t_max`.
    pub fn interpolate_value(&self, index: usize, t: Scalar, t_min: Scalar, t_max: Scalar) -> (r:
        Sample<T>)
        requires
            self.fits(self.values().len()),
            index + 1 < self.values().len(),
        ensures
            r == self.between(index as int, Span { t, t_min, t_max }),
    {
        let span = Span { t, t_min, t_max };
        match self {
            Sampler::Step(values) => Sample::Value(values[index]),
            Sampler::Linear(values) => {
                let count: usize = values.len();
                Sample::Linear { from: values[index], to: values[index + 1], span }
            },
            Sampler::Cubic(in_tangents, values, out_tangents) => {
                let count: usize = values.len();
                Sample::Cubic {
                    from: values[index],
                    out_tangent: out_tangents[index],
                    to: values[index + 1],
                    in_tangent: in_tangents[index + 1],
                    span,
                }
            },
        }
    }
}

/// Which part of a joint's placement a channel drives, with the keyframe
/// values for it.
#[derive(Debug)]
pub enum AnimatedProperty {
    Translation(Sampler<Vec3>),
    Rotation(Sampler<Quaternion>),
    Scale(Sampler<Vec3>),
}

/// A new value for one part of the placement of the joint with the given
/// internal id.
#[derive(Clone, Copy, Debug, PartialEq, Eq, Structural)]
pub enum AnimatedValue {
    Translation(usize, Vec3),
    Rotation(usize, Quaternion),
    Scale(usize, Vec3),
}

/// What a channel gives for one time: like an [`AnimatedValue`], but the
/// value may still have to be blended.
#[derive(Clone, Copy, Debug, PartialEq, Eq, Structural)]
pub enum AnimatedSample {
    Translation(usize, Sample<Vec3>),
    Rotation(usize, Sample<Quaternion>),
    Scale(usize, Sample<Vec3>),
}

impl AnimatedSample {
    /// The internal id of the joint that the sample is for.
    pub open spec fn joint(self) -> usize {
        match self {
            AnimatedSample::Translation(joint, _) => joint,
            AnimatedSample::Rotation(joint, _) => joint,
            AnimatedSample::Scale(joint, _) => joint,
        }
    }

    /// The value, where nothing is left to blend.
    pub open spec fn exact(self) -> Option<AnimatedValue> {
        match self {
            AnimatedSample::Translation(joint, Sample::Value(v)) => Some(
                AnimatedValue::Translation(joint, v),
            ),
            AnimatedSample::Rotation(joint, Sample::Value(v)) => Some(
                AnimatedValue::Rotation(joint, v),
            ),
            AnimatedSample::Scale(joint, Sample::Value(v)) => Some(
                AnimatedValue::Scale(joint, v),
            ),
            _ => None,
        }
    }

    /// The sample that is the value `value` as it stands.
    pub open spec fn of_value(value: AnimatedValue) -> AnimatedSample {
        match value {
            AnimatedValue::Translation(joint, v) => AnimatedSample::Translation(
                joint,
                Sample::Value(v),
            ),
            AnimatedValue::Rotation(joint, v) => AnimatedSample::Rotation(joint, Sample::Value(v)),
            AnimatedValue::Scale(joint, v) => AnimatedSample::Scale(joint, Sample::Value(v)),
        }
    }

    /// The value of a sample with nothing left to blend; `None` for the
    /// others.
    pub fn value(self) -> (r: Option<AnimatedValue>)
        ensures
            r == self.exact(),
    {
        match self {
            AnimatedSample::Translation(joint, Sample::Value(v)) => Some(
                AnimatedValue::Translation(joint, v),
            ),
            AnimatedSample::Rotation(joint, Sample::Value(v)) => Some(
                AnimatedValue::Rotation(joint, v),
            ),
            AnimatedSample::Scale(joint, Sample::Value(v)) => Some(AnimatedValue::Scale(joint, v)),
            _ => None,
        }
    }
}

impl AnimatedProperty {
    /// How many keyframes the property has values for.
    pub open spec fn keyframes(&self) -> nat {
        match self {
            AnimatedProperty::Translation(sampler) => sampler.values().len(),
            AnimatedProperty::Rotation(sampler) => sampler.values().len(),
            AnimatedProperty::Scale(sampler) => sampler.values().len(),
        }
    }

    /// Whether the property holds what `count` keyframes need.
    pub open spec fn fits(&self, count: nat) -> bool {
        match self {
            AnimatedProperty::Translation(sampler) => sampler.fits(count),
            AnimatedProperty::Rotation(sampler) => sampler.fits(count),
            AnimatedProperty::Scale(sampler) => sampler.fits(count),
        }
    }

    /// The value of keyframe `index`, for the joint `node_id`.
    pub open spec fn value_at(&self, index: int, node_id: usize) -> AnimatedValue {
        match self {
            AnimatedProperty::Translation(sampler) => AnimatedValue::Translation(
                node_id,
                sampler.values()[index],
            ),
            AnimatedProperty::Rotation(sampler) => AnimatedValue::Rotation(
                node_id,
                sampler.values()[index],
            ),
            AnimatedProperty::Scale(sampler) => AnimatedValue::Scale(
                node_id,
                sampler.values()[index],
            ),
        }
    }

    /// What the property gives between keyframe `index` and the next one.
    pub open spec fn between(&self, index: int, node_id: usize, span: Span) -> AnimatedSample {
        match self {
            AnimatedProperty::Translation(sampler) => AnimatedSample::Translation(
                node_id,
                sampler.between(index, span),
            ),
            AnimatedProperty::Rotation(sampler) => AnimatedSample::Rotation(
                node_id,
                sampler.between(index, span),
            ),
            AnimatedProperty::Scale(sampler) => AnimatedSample::Scale(
                node_id,
                sampler.between(index, span),
            ),
        }
    }

    pub fn has_keyframes(&self, count: usize) -> (r: bool)
        ensures
            r == self.fits(count as nat),
    {
        match self {
            AnimatedProperty::Translation(sampler) => sampler.has_keyframes(count),
            AnimatedProperty::Rotation(sampler) => sampler.has_keyframes(count),
            AnimatedProperty::Scale(sampler) => sampler.has_keyframes(count),
        }
    }

    pub fn get_value(&self, index: usize, node_id: usize) -> (r: AnimatedValue)
        requires
            index < self.keyframes(),
        ensures
            r == self.value_at(index as int, node_id),
    {
        match self {
            AnimatedProperty::Translation(sampler) => AnimatedValue::Translation(
                node_id,
                sampler.get_value(index),
            ),
            AnimatedProperty::Rotation(sampler) => AnimatedValue::Rotation(
                node_id,
                sampler.get_value(index),
            ),
            AnimatedProperty::Scale(sampler) => AnimatedValue::Scale(
                node_id,
                sampler.get_value(index),
            ),
        }
    }

    pub fn interpolate_value(
        &self,
        index: usize,
        node_id: usize,
        t: Scalar,
        t_min: Scalar,
        t_max: Scalar,
    ) -> (r: AnimatedSample)
        requires
            self.fits(self.keyframes()),
            index + 1 < self.keyframes(),
        ensures
            r == self.between(index as int, node_id, Span { t, t_min, t_max }),
    {
        match self {
            AnimatedProperty::Translation(sampler) => AnimatedSample::Translation(
                node_id,
                sampler.interpolate_value(index, t, t_min, t_max),
            ),
            AnimatedProperty::Rotation(sampler) => AnimatedSample::Rotation(
                node_id,
                sampler.interpolate_value(index, t, t_min, t_max),
            ),
            AnimatedProperty::Scale(sampler) => AnimatedSample::Scale(
                node_id,
                sampler.interpolate_value(index, t, t_min, t_max),
            ),
        }
    }
}

impl AnimatedSample {
    /// Wraps a value with nothing left to blend.
    pub fn from_value(value: AnimatedValue) -> (r: AnimatedSample)
        ensures
            r == AnimatedSample::of_value(value),
            r.exact() == Some(value),
    {
        match value {
            AnimatedValue::Translation(joint, v) => AnimatedSample::Translation(
                joint,
                Sample::Value(v),
            ),
            AnimatedValue::Rotation(joint, v) => AnimatedSample::Rotation(joint, Sample::Value(v)),
            AnimatedValue::Scale(joint, v) => AnimatedSample::Scale(joint, Sample::Value(v)),
        }
    }
}

/// Why keyframe data make no channel.
#[derive(Clone, Copy, Debug, PartialEq, Eq, Structural)]
pub enum ChannelError {
    /// There is no keyframe at all.
    NoKeyframes,
    /// A keyframe is not later than the one before it, or its time is not a
    /// number.
    UnorderedTimestamps,
    /// The values, or the tangents of a spline, are not one per keyframe.
    LengthMismatch,
}

/// Whether every time is a number below all the times after it.
pub open spec fn increasing(times: Seq<Scalar>) -> bool {
    forall|i: int, j: int| 0 <= i < j < times.len() ==> (#[trigger] times[i]).spec_lt(#[trigger] times[j])
}

/// What is wrong with keyframe data, if anything; of several faults the
/// first in the order of [`ChannelError`].
pub open spec fn channel_error(property: AnimatedProperty, times: Seq<Scalar>) -> Option<
    ChannelError,
> {
    if times.len() == 0 {
        Some(ChannelError::NoKeyframes)
    } else if !increasing(times) {
        Some(ChannelError::UnorderedTimestamps)
    } else if !property.fits(times.len()) {
        Some(ChannelError::LengthMismatch)
    } else {
        None
    }
}

/// The keyframe that opens the interval in which `t` lies: the last
/// keyframe, the final one left aside, whose time is not after `t`; the
/// first keyframe where there is none.
pub open spec fn interval_index(times: Seq<Scalar>, t: Scalar) -> int
    decreases times.len(),
{
    if times.len() <= 2 {
        0
    } else if times[times.len() - 2].spec_gt(t) {
        interval_index(times.drop_last(), t)
    } else {
        times.len() - 2
    }
}

/// The keyframes of one part of the placement of one joint.
#[derive(Debug)]
pub struct AnimationChannel {
    node_id: usize,
    animated_property: AnimatedProperty,
    timestamps: Vec<Scalar>,
    t_min: Scalar,
    t_max: Scalar,
}

/// Checks that each time is below the next one.
fn is_increasing(times: &Vec<Scalar>) -> (r: bool)
    ensures
        r == increasing(times@),
{
    if times.len() == 0 {
        return true;
    }
    let mut k: usize = 1;
    while k < times.len()
        invariant
            1 <= k <= times.len(),
            increasing(times@.take(k as int)),
        decreases times.len() - k,
    {
        if !times[k - 1].lt(times[k]) {
            return false;
        }
        proof {
            let shorter = times@.take(k as int);
            let longer = times@.take(k + 1);
            assert forall|i: int, j: int| 0 <= i < j < longer.len() implies (#[trigger] longer[i]).spec_lt(
                #[trigger] longer[j],
            ) by {
                if j < k {
                    assert(shorter[i].spec_lt(shorter[j]));
                } else if i < k - 1 {
                    assert(shorter[i].spec_lt(shorter[k - 1]));
                }
            }
        }
        k += 1;
    }
    assert(times@.take(k as int) =~= times@);
    true
}

/// The index that a search between a keyframe not after `t` and the first
/// keyframe after `t` arrives at is the interval's index.
proof fn lemma_interval_found(times: Seq<Scalar>, t: Scalar, found: int)
    requires
        times.len() >= 2,
        0 <= found <= times.len() - 2,
        !times[found].spec_gt(t),
        forall|j: int| found < j <= times.len() - 2 ==> (#[trigger] times[j]).spec_gt(t),
    ensures
        interval_index(times, t) == found,
    decreases times.len(),
{
    if times.len() > 2 && found < times.len() - 2 {
        assert(times[times.len() - 2].spec_gt(t));
        let shorter = times.drop_last();
        assert forall|j: int| found < j <= shorter.len() - 2 implies (#[trigger] shorter[j]).spec_gt(
            t,
        ) by {
            assert(times[j].spec_gt(t));
        }
        lemma_interval_found(shorter, t, found);
    }
}

impl AnimationChannel {
    /// Whether the channel holds keyframes in the order of their times, a
    /// value for each, and the first and the last time on their own.
    #[verifier::type_invariant]
    pub closed spec fn is_valid(&self) -> bool {
        &&& channel_error(self.animated_property, self.timestamps@) is None
        &&& self.t_min == self.timestamps@[0]
        &&& self.t_max == self.timestamps@.last()
    }

    /// The internal id of the joint that the channel drives.
    pub closed spec fn joint(&self) -> usize {
        self.node_id
    }

    /// The part of the placement that the channel drives, with its values.
    pub closed spec fn property(&self) -> AnimatedProperty {
        self.animated_property
    }

    /// The times of the keyframes.
    pub closed spec fn times(&self) -> Seq<Scalar> {
        self.timestamps@
    }

    /// What the channel gives for the time `t`: the first value up to the
    /// first keyframe, the last value from the last keyframe on, and in
    /// between what the sampler gives for the interval around `t`.
    pub open spec fn sample_at(&self, t: Scalar) -> AnimatedSample {
        let times = self.times();
        if t.spec_le(times[0]) {
            AnimatedSample::of_value(self.property().value_at(0, self.joint()))
        } else if t.spec_ge(times.last()) {
            AnimatedSample::of_value(self.property().value_at(times.len() - 1, self.joint()))
        } else if times.len() == 1 {
            AnimatedSample::of_value(self.property().value_at(0, self.joint()))
        } else {
            let index = interval_index(times, t);
            self.property().between(
                index,
                self.joint(),
                Span { t, t_min: times[index], t_max: times[index + 1] },
            )
        }
    }

    /// A valid channel has no fault in its keyframe data.
    pub proof fn lemma_valid(&self)
        requires
            self.is_valid(),
        ensures
            channel_error(self.property(), self.times()) is None,
    {
    }

    /// Makes a channel of keyframe data, or says what is wrong with them.
    pub fn new(node_id: usize, animated_property: AnimatedProperty, timestamps: Vec<Scalar>) -> (r:
        Result<AnimationChannel, ChannelError>)
        ensures
            match r {
                Ok(channel) => {
                    &&& channel_error(animated_property, timestamps@) is None
                    &&& channel.is_valid()
                    &&& channel.joint() == node_id
                    &&& channel.property() == animated_property
                    &&& channel.times() == timestamps@
                },
                Err(e) => channel_error(animated_property, timestamps@) == Some(e),
            },
    {
        let count: usize = timestamps.len();
        if count == 0 {
            return Err(ChannelError::NoKeyframes);
        }
        if !is_increasing(&timestamps) {
            return Err(ChannelError::UnorderedTimestamps);
        }
        if !animated_property.has_keyframes(count) {
            return Err(ChannelError::LengthMismatch);
        }
        let t_min: Scalar = timestamps[0];
        let t_max: Scalar = timestamps[count - 1];
        Ok(AnimationChannel { node_id, animated_property, timestamps, t_min, t_max })
    }

    pub fn node_id(&self) -> (r: usize)
        ensures
            r == self.joint(),
    {
        self.node_id
    }

    pub fn animated_property(&self) -> (r: &AnimatedProperty)
        ensures
            *r == self.property(),
    {
        &self.animated_property
    }

    pub fn timestamps(&self) -> (r: &Vec<Scalar>)
        ensures
            r@ == self.times(),
    {
        &self.timestamps
    }

    /// The time of the first keyframe.
    pub fn t_min(&self) -> (r: Scalar)
        ensures
            self.times().len() > 0,
            r == self.times()[0],
    {
        proof {
            use_type_invariant(self);
        }
        self.t_min
    }

    /// The time of the last keyframe.
    pub fn t_max(&self) -> (r: Scalar)
        ensures
            self.times().len() > 0,
            r == self.times().last(),
    {
        proof {
            use_type_invariant(self);
        }
        self.t_max
    }

    /// What the channel gives for the time `t`.
    pub fn compute(&self, t: Scalar) -> (r: AnimatedSample)
        ensures
            r == self.sample_at(t),
    {
        proof {
            use_type_invariant(self);
        }
        let count: usize = self.timestamps.len();
        if t.le(self.t_min) {
            return AnimatedSample::from_value(self.animated_property.get_value(0, self.node_id));
        }
        if t.ge(self.t_max) {
            return AnimatedSample::from_value(
                self.animated_property.get_value(count - 1, self.node_id),
            );
        }
        if count == 1 {
            return AnimatedSample::from_value(self.animated_property.get_value(0, self.node_id));
        }
        let index: usize = self.get_index(t);
        self.animated_property.interpolate_value(
            index,
            self.node_id,
            t,
            self.timestamps[index],
            self.timestamps[index + 1],
        )
    }

    /// Searches the keyframe that opens the interval in which `t` lies, by
    /// halving.
    fn get_index(&self, t: Scalar) -> (r: usize)
        requires
            self.times().len() >= 2,
            !self.times()[0].spec_gt(t),
        ensures
            r + 1 < self.times().len(),
            r == interval_index(self.times(), t),
    {
        proof {
            use_type_invariant(self);
        }
        let ghost times = self.timestamps@;
        let mut index_min: usize = 0;
        let mut index_max: usize = self.timestamps.len() - 1;
        while index_max > index_min + 1
            invariant
                times == self.timestamps@,
                increasing(times),
                index_min < index_max < times.len(),
                !times[index_min as int].spec_gt(t),
                index_max == times.len() - 1 || times[index_max as int].spec_gt(t),
            decreases index_max - index_min,
        {
            let index_mean: usize = index_min + (index_max - index_min) / 2;
            if self.timestamps[index_mean].gt(t) {
                index_max = index_mean;
            } else {
                index_min = index_mean;
            }
        }
        proof {
            assert forall|j: int| index_min < j <= times.len() - 2 implies (#[trigger] times[j]).spec_gt(
                t,
            ) by {
                if j > index_max {
                    assert(times[index_max as int].spec_lt(times[j]));
                }
            }
            lemma_interval_found(times, t, index_min as int);
        }
        index_min
    }
}

/// Up to the first keyframe a channel gives the first value as it stands,
/// whatever the way of blending; from the last keyframe on, the last value.
pub proof fn lemma_clamped_outside(channel: AnimationChannel, t: Scalar)
    requires
        channel.is_valid(),
    ensures
        t.spec_le(channel.times()[0]) ==> channel.sample_at(t).exact() == Some(
            channel.property().value_at(0, channel.joint()),
        ),
        t.spec_ge(channel.times().last()) ==> channel.sample_at(t).exact() == Some(
            channel.property().value_at(channel.times().len() - 1, channel.joint()),
        ),
{
    let times = channel.times();
    if t.spec_ge(times.last()) && t.spec_le(times[0]) && times.len() > 1 {
        assert(times[0].spec_lt(times[times.len() - 1]));
    }
}

/// A channel of one keyframe gives the value of that keyframe at every time,
/// whatever the way of blending and whether or not the time is a number.
pub proof fn lemma_single_keyframe(channel: AnimationChannel, t: Scalar)
    requires
        channel.is_valid(),
        channel.times().len() == 1,
    ensures
        channel.sample_at(t).exact() == Some(channel.property().value_at(0, channel.joint())),
{
}

/// Between the first and the last keyframe the interval that a channel
/// blends over holds the time: it opens at a keyframe not after `t` and
/// closes at the next keyframe, which is after `t`.
pub proof fn lemma_interval_holds(channel: AnimationChannel, t: Scalar)
    requires
        channel.is_valid(),
        channel.times()[0].spec_lt(t),
        t.spec_lt(channel.times().last()),
    ensures
        0 <= interval_index(channel.times(), t) < channel.times().len() - 1,
        channel.times()[interval_index(channel.times(), t)].spec_le(t),
        t.spec_lt(channel.times()[interval_index(channel.times(), t) + 1]),
{
    lemma_interval_bounds(channel.times(), t);
}

/// What [`interval_index`] gives for a time inside increasing times.
proof fn lemma_interval_bounds(times: Seq<Scalar>, t: Scalar)
    requires
        times.len() >= 2,
        increasing(times),
        times[0].spec_lt(t),
        t.spec_lt(times.last()),
    ensures
        0 <= interval_index(times, t) < times.len() - 1,
        times[interval_index(times, t)].spec_le(t),
        t.spec_lt(times[interval_index(times, t) + 1]),
    decreases times.len(),
{
    if times.len() > 2 && times[times.len() - 2].spec_gt(t) {
        let shorter = times.drop_last();
        assert(increasing(shorter)) by {
            assert forall|i: int, j: int| 0 <= i < j < shorter.len() implies (#[trigger] shorter[i]).spec_lt(
                #[trigger] shorter[j],
            ) by {
                assert(times[i].spec_lt(times[j]));
            }
        }
        lemma_interval_bounds(shorter, t);
    } else {
        assert(times[0].spec_lt(times[times.len() - 1]));
        assert(times[times.len() - 2].spec_lt(times[times.len() - 1]));
    }
}

/// A clip: channels that are played together.
#[derive(Debug)]
pub struct Animation {
    pub channels: Vec<AnimationChannel>,
}

impl Animation {
    /// What each channel gives for the time `t`, in the order of the
    /// channels.
    pub open spec fn samples_at(&self, t: Scalar) -> Seq<AnimatedSample> {
        Seq::new(self.channels@.len(), |i: int| self.channels@[i].sample_at(t))
    }

    pub fn compute(&self, t: Scalar) -> (r: Vec<AnimatedSample>)
        ensures
            r@ == self.samples_at(t),
    {
        let mut samples: Vec<AnimatedSample> = Vec::new();
        let mut i: usize = 0;
        while i < self.channels.len()
            invariant
                i <= self.channels.len(),
                samples@.len() == i,
                forall|k: int| 0 <= k < i ==> #[trigger] samples@[k] == self.channels@[k].sample_at(t),
            decreases self.channels.len() - i,
        {
            samples.push(self.channels[i].compute(t));
            i += 1;
        }
        assert(samples@ =~= self.samples_at(t));
        samples
    }
}

} // verus!
