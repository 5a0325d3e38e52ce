use kor_engine::animation_system::hierarchy::{flatten, HierarchyError, SceneNode, NO_JOINT};
use kor_engine::geometry::{Quaternion, Scalar, Vec3};

fn scalar(value: f32) -> Scalar {
    Scalar::from_bits(value.to_bits())
}

fn node(children: Vec<usize>) -> SceneNode {
    SceneNode {
        children,
        translation: Vec3 { x: scalar(0.0), y: scalar(0.0), z: scalar(0.0) },
        rotation: Quaternion { x: scalar(0.0), y: scalar(0.0), z: scalar(0.0), w: scalar(1.0) },
        scale: Vec3 { x: scalar(1.0), y: scalar(1.0), z: scalar(1.0) },
    }
}

#[test]
fn flatten_numbers_parents_before_children() {
    // 0 is the armature; 1 is the root joint with the children 2 and 3; 4 hangs under 2.
    let nodes = vec![node(vec![1]), node(vec![2, 3]), node(vec![4]), node(vec![]), node(vec![])];
    let layout = flatten(&nodes, &[4, 3, 2, 1]).unwrap();
    // the walk takes the last child first: 1, 3, 2, 4
    assert_eq!(layout.order, vec![1, 3, 2, 4]);
    assert_eq!(layout.parents, vec![NO_JOINT, 0, 0, 2]);
    assert_eq!(layout.skin_indices, vec![3, 1, 2, 0]);
    assert_eq!(layout.node_to_inner, vec![NO_JOINT, 0, 2, 1, 3]);
    assert_eq!(layout.joint_to_inner, vec![3, 1, 2, 0]);
    for i in 1..layout.parents.len() {
        assert!(layout.parents[i] < i);
    }
}

#[test]
fn flatten_accepts_a_root_that_is_a_joint() {
    let nodes = vec![node(vec![1]), node(vec![])];
    let layout = flatten(&nodes, &[0, 1]).unwrap();
    assert_eq!(layout.order, vec![0, 1]);
    assert_eq!(layout.parents, vec![NO_JOINT, 0]);
}

#[test]
fn flatten_names_each_fault() {
    let chain = vec![node(vec![1]), node(vec![])];
    assert_eq!(flatten(&chain, &[]).unwrap_err(), HierarchyError::NoJoints);
    assert_eq!(flatten(&chain, &[0, 2]).unwrap_err(), HierarchyError::JointOutOfRange);
    assert_eq!(flatten(&chain, &[1, 1]).unwrap_err(), HierarchyError::DuplicateJoint);
    let far = vec![node(vec![7]), node(vec![])];
    assert_eq!(flatten(&far, &[0]).unwrap_err(), HierarchyError::ChildOutOfRange);
    let shared = vec![node(vec![2]), node(vec![2]), node(vec![])];
    assert_eq!(flatten(&shared, &[2]).unwrap_err(), HierarchyError::SharedChild);
    let circle = vec![node(vec![1]), node(vec![0])];
    assert_eq!(flatten(&circle, &[0]).unwrap_err(), HierarchyError::NoRoot);
    // joint 2 hangs under node 1, which is no joint
    let gap = vec![node(vec![1]), node(vec![2]), node(vec![])];
    assert_eq!(flatten(&gap, &[0, 2]).unwrap_err(), HierarchyError::DetachedJoint);
    // node 1 is a tree of its own
    let apart = vec![node(vec![]), node(vec![])];
    assert_eq!(flatten(&apart, &[0, 1]).unwrap_err(), HierarchyError::UnreachableJoint);
}
