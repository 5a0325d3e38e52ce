use kor_engine::animation_system::animation::{
    AnimatedProperty, AnimatedSample, ChannelError, Sample, Sampler,
};
use kor_engine::animation_system::hierarchy::NO_JOINT;
use kor_engine::animation_system::loader::{
    convert_sampler, load_channel, ChannelLoadError, ChannelOutputs, Interpolation,
};
use kor_engine::geometry::{Scalar, Vec3};

fn scalar(value: f32) -> Scalar {
    Scalar::from_bits(value.to_bits())
}

fn values(count: usize) -> Vec<Vec3> {
    (0..count).map(|i| Vec3 { x: scalar(i as f32), y: scalar(0.0), z: scalar(0.0) }).collect()
}

fn times(values: &[f32]) -> Vec<Scalar> {
    values.iter().map(|t| scalar(*t)).collect()
}

#[test]
fn convert_sampler_keeps_plain_lists() {
    assert!(matches!(convert_sampler(values(3), Interpolation::Step, 3), Some(Sampler::Step(v)) if v == values(3)));
    assert!(matches!(convert_sampler(values(2), Interpolation::Linear, 2), Some(Sampler::Linear(v)) if v == values(2)));
}

#[test]
fn convert_sampler_parts_a_spline_in_three() {
    let all = values(7);
    match convert_sampler(all.clone(), Interpolation::CubicSpline, 2) {
        Some(Sampler::Cubic(start, middle, end)) => {
            assert_eq!(start, all[0..2].to_vec());
            assert_eq!(middle, all[2..4].to_vec());
            assert_eq!(end, all[4..6].to_vec());
        }
        other => panic!("{other:?}"),
    }
    assert!(convert_sampler(values(5), Interpolation::CubicSpline, 2).is_none());
    assert!(matches!(
        convert_sampler(values(0), Interpolation::CubicSpline, 0),
        Some(Sampler::Cubic(a, b, c)) if a.is_empty() && b.is_empty() && c.is_empty()
    ));
}

#[test]
fn load_channel_leads_the_node_to_its_internal_id() {
    let joints = [4, 2];
    let mapping = [NO_JOINT, NO_JOINT, 1, NO_JOINT, 0];
    let channel = load_channel(
        2,
        &joints,
        &mapping,
        times(&[0.0, 1.0]),
        ChannelOutputs::Scales(values(2)),
        Interpolation::Linear,
    )
    .unwrap();
    assert_eq!(channel.node_id(), 1);
    assert_eq!(channel.timestamps(), &times(&[0.0, 1.0]));
    assert!(matches!(channel.animated_property(), AnimatedProperty::Scale(Sampler::Linear(v)) if *v == values(2)));
    assert_eq!(
        channel.compute(scalar(-1.0)),
        AnimatedSample::Scale(1, Sample::Value(values(1)[0]))
    );
}

#[test]
fn load_channel_names_each_reason() {
    let joints = [4, 2, 9];
    let mapping = [NO_JOINT, NO_JOINT, 1, NO_JOINT, NO_JOINT];
    let load = |target, stamps: &[f32], outputs, interpolation| {
        load_channel(target, &joints, &mapping, times(stamps), outputs, interpolation).unwrap_err()
    };
    let plain = || ChannelOutputs::Translations(values(2));
    assert_eq!(load(3, &[0.0, 1.0], plain(), Interpolation::Step), ChannelLoadError::NotAJoint);
    assert_eq!(load(4, &[0.0, 1.0], plain(), Interpolation::Step), ChannelLoadError::Unmapped);
    assert_eq!(load(9, &[0.0, 1.0], plain(), Interpolation::Step), ChannelLoadError::Unmapped);
    assert_eq!(
        load(2, &[0.0, 1.0], ChannelOutputs::MorphTargetWeights, Interpolation::Step),
        ChannelLoadError::Unsupported
    );
    assert_eq!(
        load(2, &[0.0, 1.0], ChannelOutputs::Rotations(vec![]), Interpolation::CubicSpline),
        ChannelLoadError::TooFewValues
    );
    assert_eq!(
        load(2, &[], ChannelOutputs::Translations(vec![]), Interpolation::Linear),
        ChannelLoadError::Keyframes(ChannelError::NoKeyframes)
    );
    assert_eq!(
        load(2, &[1.0, 0.0], plain(), Interpolation::Linear),
        ChannelLoadError::Keyframes(ChannelError::UnorderedTimestamps)
    );
    assert_eq!(
        load(2, &[0.0, 1.0, 2.0], plain(), Interpolation::Linear),
        ChannelLoadError::Keyframes(ChannelError::LengthMismatch)
    );
}
