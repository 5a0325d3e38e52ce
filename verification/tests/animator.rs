use kor_engine::animation_system::animation::{
    AnimatedProperty, AnimatedValue, Animation, AnimationChannel, Sample, Sampler,
};
use kor_engine::animation_system::animator::{Animator, Node};
use kor_engine::animation_system::hierarchy::{HierarchyError, SceneNode, NO_JOINT};
use kor_engine::geometry::{Quaternion, Scalar, Transform, Vec3};

fn scalar(value: f32) -> Scalar {
    Scalar::from_bits(value.to_bits())
}

fn number(value: Scalar) -> f32 {
    f32::from_bits(value.to_bits())
}

fn vec3(x: f32, y: f32, z: f32) -> Vec3 {
    Vec3 { x: scalar(x), y: scalar(y), z: scalar(z) }
}

fn quaternion(x: f32, y: f32, z: f32, w: f32) -> Quaternion {
    Quaternion { x: scalar(x), y: scalar(y), z: scalar(z), w: scalar(w) }
}

fn times(values: &[f32]) -> Vec<Scalar> {
    values.iter().map(|t| scalar(*t)).collect()
}

fn node(children: Vec<usize>, translation: Vec3) -> SceneNode {
    SceneNode {
        children,
        translation,
        rotation: quaternion(0.0, 0.0, 0.0, 1.0),
        scale: vec3(1.0, 1.0, 1.0),
    }
}

fn matrix(rows: [[f32; 3]; 4]) -> Transform {
    let row = |r: [f32; 3]| [scalar(r[0]), scalar(r[1]), scalar(r[2])];
    Transform { rotation_scale: [row(rows[0]), row(rows[1]), row(rows[2])], translation: row(rows[3]) }
}

fn numbers(t: &Transform) -> [[f32; 3]; 4] {
    let row = |r: [Scalar; 3]| [number(r[0]), number(r[1]), number(r[2])];
    [row(t.rotation_scale[0]), row(t.rotation_scale[1]), row(t.rotation_scale[2]), row(t.translation)]
}

fn identity() -> Transform {
    Transform::new()
}

// The arithmetic that the library leaves to its caller, in single precision.

fn from_trs(t: Vec3, r: Quaternion, s: Vec3) -> Transform {
    let (x, y, z, w) = (number(r.x), number(r.y), number(r.z), number(r.w));
    let (sx, sy, sz) = (number(s.x), number(s.y), number(s.z));
    matrix([
        [sx * (w * w + x * x - y * y - z * z), sx * 2.0 * (w * z + x * y), sx * 2.0 * (x * z - w * y)],
        [sy * 2.0 * (x * y - w * z), sy * (w * w - x * x + y * y - z * z), sy * 2.0 * (w * x + y * z)],
        [sz * 2.0 * (w * y + x * z), sz * 2.0 * (y * z - w * x), sz * (w * w - x * x - y * y + z * z)],
        [number(t.x), number(t.y), number(t.z)],
    ])
}

fn compose(a: Transform, b: Transform) -> Transform {
    let a = numbers(&a);
    let b = numbers(&b);
    let mut out = [[0.0f32; 3]; 4];
    for row in 0..3 {
        for column in 0..3 {
            out[row][column] = a[0][column] * b[row][0] + a[1][column] * b[row][1] + a[2][column] * b[row][2];
        }
    }
    for column in 0..3 {
        out[3][column] =
            b[3][0] * a[0][column] + b[3][1] * a[1][column] + b[3][2] * a[2][column] + a[3][column];
    }
    matrix(out)
}

fn blend_vec3(sample: Sample<Vec3>) -> Vec3 {
    match sample {
        Sample::Value(v) => v,
        Sample::Linear { from, to, span } => {
            let alpha = (number(span.t) - number(span.t_min)) / (number(span.t_max) - number(span.t_min));
            vec3(
                number(from.x) * (1.0 - alpha) + number(to.x) * alpha,
                number(from.y) * (1.0 - alpha) + number(to.y) * alpha,
                number(from.z) * (1.0 - alpha) + number(to.z) * alpha,
            )
        }
        Sample::Cubic { .. } => panic!("no spline in these tests"),
    }
}

fn blend_quaternion(sample: Sample<Quaternion>) -> Quaternion {
    match sample {
        Sample::Value(q) => q,
        Sample::Linear { from, to, span } => {
            let alpha = (number(span.t) - number(span.t_min)) / (number(span.t_max) - number(span.t_min));
            let a = [number(from.x), number(from.y), number(from.z), number(from.w)];
            let b = [number(to.x), number(to.y), number(to.z), number(to.w)];
            let d: f32 = (0..4).map(|i| a[i] * b[i]).sum();
            let angle = d.abs().acos();
            let sign = d.signum();
            let norm = angle.sin();
            let (wa, wb) = if norm < 0.1 {
                (1.0 - alpha, alpha)
            } else {
                (((1.0 - alpha) * angle).sin() / norm, (alpha * angle).sin() / norm)
            };
            let c: Vec<f32> = (0..4).map(|i| a[i] * wa + b[i] * sign * wb).collect();
            quaternion(c[0], c[1], c[2], c[3])
        }
        Sample::Cubic { .. } => panic!("no spline in these tests"),
    }
}

fn close(a: [[f32; 3]; 4], b: [[f32; 3]; 4]) -> bool {
    (0..4).all(|r| (0..3).all(|c| (a[r][c] - b[r][c]).abs() < 1.0e-5))
}

/// Node 0 is the root joint, node 1 its child one unit up.
fn chain() -> (Animator, Vec<usize>, Vec<usize>) {
    let nodes = vec![node(vec![1], vec3(0.0, 0.0, 0.0)), node(vec![], vec3(0.0, 1.0, 0.0))];
    Animator::new(&nodes, &[0, 1], &[identity(), identity()]).unwrap()
}

#[test]
fn new_animator_numbers_parents_before_children() {
    // 0 armature, 1 root joint, children 2 and 3 of 1, 4 under 3
    let nodes = vec![
        node(vec![1], vec3(0.0, 0.0, 0.0)),
        node(vec![2, 3], vec3(1.0, 0.0, 0.0)),
        node(vec![], vec3(2.0, 0.0, 0.0)),
        node(vec![4], vec3(3.0, 0.0, 0.0)),
        node(vec![], vec3(4.0, 0.0, 0.0)),
    ];
    let inverse: Vec<Transform> =
        (0..4).map(|j| matrix([[1.0, 0.0, 0.0], [0.0, 1.0, 0.0], [0.0, 0.0, 1.0], [j as f32, 0.0, 0.0]])).collect();
    let (animator, node_to_inner, joint_to_inner) = Animator::new(&nodes, &[2, 4, 1, 3], &inverse).unwrap();
    assert_eq!(animator.joint_count(), 4);
    // the walk meets 1, 3, 4, 2
    assert_eq!(node_to_inner, vec![NO_JOINT, 0, 3, 1, 2]);
    assert_eq!(joint_to_inner, vec![3, 2, 0, 1]);
    assert_eq!(animator.parents(), &vec![NO_JOINT, 0, 1, 0]);
    for i in 1..animator.joint_count() {
        assert!(animator.parents()[i] < i);
    }
    let placed: Vec<f32> = animator.nodes().iter().map(|n| number(n.translation.x)).collect();
    assert_eq!(placed, vec![1.0, 3.0, 4.0, 2.0]);
    assert_eq!(animator.start_nodes(), animator.nodes());
    // each joint keeps the inverse transform given at its place in the skin
    let kept: Vec<f32> = animator.inverse_transforms().iter().map(|t| number(t.translation[0])).collect();
    assert_eq!(kept, vec![2.0, 3.0, 1.0, 0.0]);
    assert!(animator.animations().is_empty());
}

#[test]
fn new_animator_names_each_fault() {
    let nodes = vec![node(vec![1], vec3(0.0, 0.0, 0.0)), node(vec![], vec3(0.0, 1.0, 0.0))];
    assert_eq!(
        Animator::new(&nodes, &[0, 1], &[identity()]).unwrap_err(),
        HierarchyError::MissingInverseTransform
    );
    assert_eq!(Animator::new(&nodes, &[], &[]).unwrap_err(), HierarchyError::NoJoints);
    assert_eq!(Animator::new(&nodes, &[5], &[identity()]).unwrap_err(), HierarchyError::JointOutOfRange);
    let circle = vec![node(vec![1], vec3(0.0, 0.0, 0.0)), node(vec![0], vec3(0.0, 0.0, 0.0))];
    assert_eq!(Animator::new(&circle, &[0], &[]).unwrap_err(), HierarchyError::NoRoot);
}

#[test]
fn apply_replaces_one_part_of_one_joint() {
    let (mut animator, _, _) = chain();
    animator.apply(AnimatedValue::Translation(1, vec3(7.0, 8.0, 9.0)));
    animator.apply(AnimatedValue::Scale(0, vec3(2.0, 2.0, 2.0)));
    animator.apply(AnimatedValue::Rotation(1, quaternion(0.0, 1.0, 0.0, 0.0)));
    assert_eq!(
        animator.nodes()[1],
        Node {
            rotation: quaternion(0.0, 1.0, 0.0, 0.0),
            translation: vec3(7.0, 8.0, 9.0),
            scale: vec3(1.0, 1.0, 1.0),
        }
    );
    assert_eq!(
        animator.nodes()[0],
        Node {
            rotation: quaternion(0.0, 0.0, 0.0, 1.0),
            translation: vec3(0.0, 0.0, 0.0),
            scale: vec3(2.0, 2.0, 2.0),
        }
    );
    assert_eq!(animator.start_nodes()[1].translation, vec3(0.0, 1.0, 0.0));
}

#[test]
fn reset_after_any_play_is_as_built() {
    let (fresh, _, _) = chain();
    let at_rest = fresh.compute_transforms(from_trs, compose);
    let (mut animator, _, _) = chain();
    let turn = AnimationChannel::new(
        0,
        AnimatedProperty::Rotation(Sampler::Linear(vec![
            quaternion(0.0, 0.0, 0.0, 1.0),
            quaternion(0.0, 1.0, 0.0, 0.0),
        ])),
        times(&[0.0, 1.0]),
    )
    .unwrap();
    let lift = AnimationChannel::new(
        1,
        AnimatedProperty::Translation(Sampler::Step(vec![vec3(0.0, 5.0, 0.0), vec3(0.0, 6.0, 0.0)])),
        times(&[0.0, 1.0]),
    )
    .unwrap();
    assert_eq!(animator.push_animation(Animation { channels: vec![turn, lift] }), Some(0));
    animator.animate(0, scalar(0.3), blend_vec3, blend_quaternion);
    animator.animate(0, scalar(0.9), blend_vec3, blend_quaternion);
    animator.apply(AnimatedValue::Scale(1, vec3(3.0, 3.0, 3.0)));
    assert_ne!(animator.nodes(), fresh.nodes());
    animator.reset();
    assert_eq!(animator.nodes(), fresh.nodes());
    assert_eq!(animator.start_nodes(), fresh.start_nodes());
    assert_eq!(animator.compute_transforms(from_trs, compose), at_rest);
    animator.reset();
    assert_eq!(animator.nodes(), fresh.nodes());
}

#[test]
fn push_animation_refuses_a_channel_for_no_joint() {
    let (mut animator, _, _) = chain();
    let stray = AnimationChannel::new(
        2,
        AnimatedProperty::Scale(Sampler::Step(vec![vec3(1.0, 1.0, 1.0)])),
        times(&[0.0]),
    )
    .unwrap();
    assert_eq!(animator.push_animation(Animation { channels: vec![stray] }), None);
    assert!(animator.animations().is_empty());
    assert_eq!(animator.push_animation(Animation { channels: vec![] }), Some(0));
    assert_eq!(animator.push_animation(Animation { channels: vec![] }), Some(1));
    assert_eq!(animator.animations().len(), 2);
}

#[test]
fn animate_lets_the_later_channel_win() {
    let (mut animator, _, _) = chain();
    let channel = |y: f32| {
        AnimationChannel::new(
            1,
            AnimatedProperty::Translation(Sampler::Step(vec![vec3(0.0, y, 0.0)])),
            times(&[0.0]),
        )
        .unwrap()
    };
    animator.push_animation(Animation { channels: vec![channel(2.0), channel(3.0)] });
    animator.animate(0, scalar(0.0), blend_vec3, blend_quaternion);
    assert_eq!(animator.nodes()[1].translation, vec3(0.0, 3.0, 0.0));
    assert_eq!(animator.nodes()[1].scale, vec3(1.0, 1.0, 1.0));
    assert_eq!(animator.nodes()[0], animator.start_nodes()[0]);
}

#[test]
fn animate_blends_through_the_functions_given() {
    let (mut animator, _, _) = chain();
    let slide = AnimationChannel::new(
        1,
        AnimatedProperty::Translation(Sampler::Linear(vec![vec3(1.0, 2.0, 3.0), vec3(3.0, 6.0, 9.0)])),
        times(&[0.0, 1.0]),
    )
    .unwrap();
    animator.push_animation(Animation { channels: vec![slide] });
    animator.animate(0, scalar(0.5), blend_vec3, blend_quaternion);
    assert_eq!(animator.nodes()[1].translation, vec3(2.0, 4.0, 6.0));
    assert_eq!(animator.sample(0, scalar(2.0)).len(), 1);
}

#[test]
fn compute_transforms_composes_down_the_chain() {
    let nodes = vec![
        node(vec![1], vec3(1.0, 0.0, 0.0)),
        node(vec![2], vec3(0.0, 2.0, 0.0)),
        node(vec![], vec3(0.0, 0.0, 3.0)),
    ];
    let back = |x: f32, y: f32, z: f32| matrix([[1.0, 0.0, 0.0], [0.0, 1.0, 0.0], [0.0, 0.0, 1.0], [x, y, z]]);
    let inverse = vec![back(-1.0, 0.0, 0.0), back(-1.0, -2.0, 0.0), back(-1.0, -2.0, -3.0)];
    let (mut animator, _, _) = Animator::new(&nodes, &[0, 1, 2], &inverse).unwrap();
    // at rest every skinning transform undoes the bind pose
    for t in animator.compute_transforms(from_trs, compose) {
        assert!(close(numbers(&t), numbers(&identity())));
    }
    animator.apply(AnimatedValue::Translation(0, vec3(5.0, 0.0, 0.0)));
    for t in animator.compute_transforms(from_trs, compose) {
        assert!(close(numbers(&t), numbers(&back(4.0, 0.0, 0.0))));
    }
}

#[test]
fn child_of_a_turned_root_turns_with_it() {
    // root joint with a child one unit up; the root turns around the second
    // axis from 0 to half a turn over one second; after half a second the
    // child's offset is unchanged, and a point one unit along the first axis
    // of the child has made a quarter turn
    let (mut animator, _, _) = chain();
    let turn = AnimationChannel::new(
        0,
        AnimatedProperty::Rotation(Sampler::Linear(vec![
            quaternion(0.0, 0.0, 0.0, 1.0),
            quaternion(0.0, 1.0, 0.0, 0.0),
        ])),
        times(&[0.0, 1.0]),
    )
    .unwrap();
    animator.push_animation(Animation { channels: vec![turn] });
    animator.animate(0, scalar(0.5), blend_vec3, blend_quaternion);
    let half = std::f32::consts::FRAC_1_SQRT_2;
    let turned = animator.nodes()[0].rotation;
    assert!((number(turned.y) - half).abs() < 1.0e-6);
    assert!((number(turned.w) - half).abs() < 1.0e-6);
    let world = animator.compute_transforms(from_trs, compose);
    let child = numbers(&world[1]);
    // a quarter turn around the second axis
    let quarter = [[0.0, 0.0, -1.0], [0.0, 1.0, 0.0], [1.0, 0.0, 0.0], [0.0, 1.0, 0.0]];
    assert!(close(child, quarter), "{child:?}");
    assert!(close(numbers(&world[0]), [[0.0, 0.0, -1.0], [0.0, 1.0, 0.0], [1.0, 0.0, 0.0], [0.0, 0.0, 0.0]]));
}

#[test]
fn node_mutators_work_on_top_of_the_pose() {
    let (mut animator, _, _) = chain();
    let times_each = |a: Vec3, b: Vec3| {
        vec3(number(a.x) * number(b.x), number(a.y) * number(b.y), number(a.z) * number(b.z))
    };
    let plus = |a: Vec3, b: Vec3| {
        vec3(number(a.x) + number(b.x), number(a.y) + number(b.y), number(a.z) + number(b.z))
    };
    // the product of two quaternions, the first one on the left
    let product = |a: Quaternion, b: Quaternion| {
        let (ax, ay, az, aw) = (number(a.x), number(a.y), number(a.z), number(a.w));
        let (bx, by, bz, bw) = (number(b.x), number(b.y), number(b.z), number(b.w));
        quaternion(
            ax * bw + aw * bx + ay * bz - az * by,
            ay * bw + aw * by + az * bx - ax * bz,
            az * bw + aw * bz + ax * by - ay * bx,
            aw * bw - ax * bx - ay * by - az * bz,
        )
    };
    animator.scale_node(1, vec3(2.0, 3.0, 4.0), times_each);
    animator.scale_node(1, vec3(2.0, 2.0, 2.0), times_each);
    assert_eq!(animator.nodes()[1].scale, vec3(4.0, 6.0, 8.0));
    animator.translate_node(1, vec3(1.0, 1.0, 1.0), plus);
    assert_eq!(animator.nodes()[1].translation, vec3(1.0, 2.0, 1.0));
    // a quarter turn around the first axis, then one around the second:
    // the later turn stands on the left of the product
    let half = std::f32::consts::FRAC_1_SQRT_2;
    animator.rotate_node(0, quaternion(half, 0.0, 0.0, half), product);
    animator.rotate_node(0, quaternion(0.0, half, 0.0, half), product);
    let turned = animator.nodes()[0].rotation;
    let expected = [0.5, 0.5, -0.5, 0.5];
    let got = [number(turned.x), number(turned.y), number(turned.z), number(turned.w)];
    for i in 0..4 {
        assert!((got[i] - expected[i]).abs() < 1.0e-6, "{got:?}");
    }
    assert_eq!(animator.nodes()[0].scale, vec3(1.0, 1.0, 1.0));
    assert_eq!(animator.start_nodes()[1].scale, vec3(1.0, 1.0, 1.0));
}
