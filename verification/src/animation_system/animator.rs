use vstd::prelude::*;
use crate::animation_system::animation::AnimatedSample;
use crate::animation_system::animation::AnimatedValue;
use crate::animation_system::animation::Animation;
use crate::animation_system::animation::Sample;
use crate::animation_system::hierarchy::flatten;
use crate::animation_system::hierarchy::hierarchy_error;
use crate::animation_system::hierarchy::is_child;
use crate::animation_system::hierarchy::joint_order;
use crate::animation_system::hierarchy::HierarchyError;
use crate::animation_system::hierarchy::JointLayout;
use crate::animation_system::hierarchy::SceneNode;
use crate::animation_system::hierarchy::NO_JOINT;
use crate::geometry::quaternion::Quaternion;
use crate::geometry::scalar::Scalar;
use crate::geometry::transform::Transform;
use crate::geometry::vec3::Vec3;

verus! {

/// The placement of one joint relative to its parent.
#[derive(Clone, Copy, Debug, PartialEq, Eq, Structural)]
pub struct Node {
    pub rotation: Quaternion,
    pub translation: Vec3,
    pub scale: Vec3,
}

/// The placement that a scene node gives its joint.
pub open spec fn placement(node: SceneNode) -> Node {
    Node { rotation: node.rotation, translation: node.translation, scale: node.scale }
}

/// The pose after one value has been written into it: the one part of the
/// one joint is replaced, everything else stays.
pub open spec fn apply_value(pose: Seq<Node>, value: AnimatedValue) -> Seq<Node> {
    match value {
        AnimatedValue::Translation(joint, translation) => pose.update(
            joint as int,
            Node { translation, ..pose[joint as int] },
        ),
        AnimatedValue::Rotation(joint, rotation) => pose.update(
            joint as int,
            Node { rotation, ..pose[joint as int] },
        ),
        AnimatedValue::Scale(joint, scale) => pose.update(
            joint as int,
            Node { scale, ..pose[joint as int] },
        ),
    }
}

/// The pose after the values have been written into it one after the other:
/// of two values for the same part of the same joint the later one stays.
pub open spec fn apply_values(pose: Seq<Node>, values: Seq<AnimatedValue>) -> Seq<Node>
    decreases values.len(),
{
    if values.len() == 0 {
        pose
    } else {
        apply_value(apply_values(pose, values.drop_last()), values.last())
    }
}

/// The joint of a value.
pub open spec fn joint_of(value: AnimatedValue) -> usize {
    match value {
        AnimatedValue::Translation(joint, _) => joint,
        AnimatedValue::Rotation(joint, _) => joint,
        AnimatedValue::Scale(joint, _) => joint,
    }
}

/// Whether `parents` is a table of parents in which every joint but the
/// first has a parent with a smaller id, and the first has none.
pub open spec fn parents_before_children(parents: Seq<usize>) -> bool {
    &&& parents.len() > 0
    &&& parents[0] == NO_JOINT
    &&& forall|i: int| 0 < i < parents.len() ==> #[trigger] parents[i] < i
}

/// Whether every channel of every clip drives a joint below `count`.
pub open spec fn clips_in_range(clips: Seq<Animation>, count: nat) -> bool {
    forall|a: int, c: int|
        0 <= a < clips.len() && 0 <= c < clips[a].channels@.len() ==> (
        #[trigger] clips[a].channels@[c]).joint() < count
}

/// Whether `value` is what `sample` comes to: the sample's own value where
/// nothing is left to blend, else a result of `blend` on the sample.
pub open spec fn blended<T, F: Fn(Sample<T>) -> T>(blend: F, sample: Sample<T>, value: T) -> bool {
    match sample {
        Sample::Value(v) => value == v,
        _ => call_ensures(blend, (sample,), value),
    }
}

/// Whether `value` is what the sample of a channel comes to: for the same
/// joint and the same part of its placement, blended by the function for its
/// kind.
pub open spec fn resolved<FV: Fn(Sample<Vec3>) -> Vec3, FQ: Fn(Sample<Quaternion>) -> Quaternion>(
    blend_vec3: FV,
    blend_quaternion: FQ,
    sample: AnimatedSample,
    value: AnimatedValue,
) -> bool {
    match sample {
        AnimatedSample::Translation(joint, s) => exists|v: Vec3|
            value == AnimatedValue::Translation(joint, v) && blended(blend_vec3, s, v),
        AnimatedSample::Rotation(joint, s) => exists|v: Quaternion|
            value == AnimatedValue::Rotation(joint, v) && blended(blend_quaternion, s, v),
        AnimatedSample::Scale(joint, s) => exists|v: Vec3|
            value == AnimatedValue::Scale(joint, v) && blended(blend_vec3, s, v),
    }
}

/// Whether `values` are what `samples` come to, one for one.
pub open spec fn resolved_all<FV: Fn(Sample<Vec3>) -> Vec3, FQ: Fn(Sample<Quaternion>) -> Quaternion>(
    blend_vec3: FV,
    blend_quaternion: FQ,
    samples: Seq<AnimatedSample>,
    values: Seq<AnimatedValue>,
) -> bool {
    &&& values.len() == samples.len()
    &&& forall|i: int|
        0 <= i < samples.len() ==> resolved(
            blend_vec3,
            blend_quaternion,
            samples[i],
            #[trigger] values[i],
        )
}

/// Whether `result` holds the skinning transforms of a pose, and
/// `cumulated` the transforms from each joint to the root that lead to
/// them, where `from_trs` makes the transform of a placement and
/// `compose(a, b)` the transform that applies `a`, then `b`.
///
/// The first joint's cumulated transform is its own. Every other joint's
/// is its parent's, applied before its own. A skinning transform is the
/// cumulated one, applied before the joint's inverse bind transform.
pub open spec fn is_skinning<
    FT: Fn(Vec3, Quaternion, Vec3) -> Transform,
    FC: Fn(Transform, Transform) -> Transform,
>(
    from_trs: FT,
    compose: FC,
    pose: Seq<Node>,
    parents: Seq<usize>,
    inverse: Seq<Transform>,
    cumulated: Seq<Transform>,
    result: Seq<Transform>,
) -> bool {
    &&& cumulated.len() == pose.len()
    &&& result.len() == pose.len()
    &&& forall|i: int|
        0 <= i < pose.len() ==> call_ensures(
            compose,
            (cumulated[i], inverse[i]),
            #[trigger] result[i],
        )
    &&& forall|i: int|
        0 <= i < pose.len() ==> is_cumulated(
            from_trs,
            compose,
            pose[i],
            if i == 0 {
                None
            } else {
                Some(cumulated[parents[i] as int])
            },
            #[trigger] cumulated[i],
        )
}

/// Whether `cumulated` is the transform from a joint to the root, for a
/// joint placed as `node` whose parent has the cumulated transform `above`.
pub open spec fn is_cumulated<
    FT: Fn(Vec3, Quaternion, Vec3) -> Transform,
    FC: Fn(Transform, Transform) -> Transform,
>(from_trs: FT, compose: FC, node: Node, above: Option<Transform>, cumulated: Transform) -> bool {
    match above {
        None => call_ensures(from_trs, (node.translation, node.rotation, node.scale), cumulated),
        Some(parent) => exists|local: Transform|
            #[trigger] call_ensures(from_trs, (node.translation, node.rotation, node.scale), local)
                && call_ensures(compose, (parent, local), cumulated),
    }
}

/// A skeleton with its pose: per joint the placement at rest, the placement
/// now, the transform that undoes the bind pose and the parent; and the
/// clips that can be played on it.
#[derive(Debug)]
pub struct Animator {
    nodes: Vec<Node>,
    start_nodes: Vec<Node>,
    inverse_transforms: Vec<Transform>,
    parents: Vec<usize>,
    animations: Vec<Animation>,
}

impl Animator {
    /// Whether the four tables have one entry per joint, parents come before
    /// their children, and the clips drive joints of this skeleton.
    pub closed spec fn is_valid(&self) -> bool {
        &&& self.nodes@.len() == self.parents@.len()
        &&& self.start_nodes@.len() == self.parents@.len()
        &&& self.inverse_transforms@.len() == self.parents@.len()
        &&& parents_before_children(self.parents@)
        &&& clips_in_range(self.animations@, self.parents@.len())
    }

    /// The placement of each joint now.
    pub closed spec fn pose(&self) -> Seq<Node> {
        self.nodes@
    }

    /// The placement of each joint at rest.
    pub closed spec fn rest_pose(&self) -> Seq<Node> {
        self.start_nodes@
    }

    /// For each joint, the transform that undoes its bind pose.
    pub closed spec fn inverse_bind(&self) -> Seq<Transform> {
        self.inverse_transforms@
    }

    /// For each joint, the id of its parent.
    pub closed spec fn parent_ids(&self) -> Seq<usize> {
        self.parents@
    }

    /// The clips.
    pub closed spec fn clips(&self) -> Seq<Animation> {
        self.animations@
    }

    /// Whether two animators are the same skeleton with the same clips,
    /// whatever their poses.
    pub open spec fn same_skeleton(&self, other: &Animator) -> bool {
        &&& self.rest_pose() == other.rest_pose()
        &&& self.inverse_bind() == other.inverse_bind()
        &&& self.parent_ids() == other.parent_ids()
        &&& self.clips() == other.clips()
    }

    /// What validity means, over the views.
    pub proof fn lemma_valid(&self)
        requires
            self.is_valid(),
        ensures
            self.pose().len() == self.parent_ids().len(),
            self.rest_pose().len() == self.parent_ids().len(),
            self.inverse_bind().len() == self.parent_ids().len(),
            parents_before_children(self.parent_ids()),
            clips_in_range(self.clips(), self.parent_ids().len()),
    {
    }

    /// Whether the animator is the skeleton of the graph `nodes` with the
    /// joints `joints`, at rest, with `inverse` as the inverse bind
    /// transforms in the order of `joints`, and the two tables lead from
    /// nodes and from places in `joints` to internal ids.
    pub open spec fn is_skeleton_of(
        &self,
        nodes: Seq<SceneNode>,
        joints: Seq<usize>,
        inverse: Seq<Transform>,
        node_to_inner: Seq<usize>,
        joint_to_inner: Seq<usize>,
    ) -> bool {
        let order = joint_order(nodes, joints);
        &&& order.len() == joints.len()
        &&& self.pose().len() == order.len()
        &&& self.rest_pose() == self.pose()
        &&& self.parent_ids().len() == order.len()
        &&& parents_before_children(self.parent_ids())
        &&& self.inverse_bind().len() == order.len()
        &&& self.clips().len() == 0
        &&& forall|i: int|
            0 <= i < order.len() ==> #[trigger] self.pose()[i] == placement(nodes[order[i] as int])
        &&& forall|i: int|
            0 < i < order.len() ==> is_child(
                nodes,
                order[#[trigger] self.parent_ids()[i] as int] as int,
                order[i],
            )
        &&& node_to_inner.len() == nodes.len()
        &&& forall|g: int|
            0 <= g < nodes.len() ==> if #[trigger] node_to_inner[g] == NO_JOINT {
                !joints.contains(g as usize)
            } else {
                node_to_inner[g] < order.len() && order[node_to_inner[g] as int] == g
            }
        &&& joint_to_inner.len() == joints.len()
        &&& forall|j: int|
            0 <= j < joints.len() ==> {
                &&& #[trigger] joint_to_inner[j] < order.len()
                &&& order[joint_to_inner[j] as int] == joints[j]
                &&& self.inverse_bind()[joint_to_inner[j] as int] == inverse[j]
            }
    }

    /// Builds the skeleton of a scene graph: numbers the joints in the
    /// order of the walk from the root, takes their placements as the rest
    /// pose, and keeps for each the inverse bind transform given for it.
    ///
    /// With the animator come the table from nodes to internal ids and the
    /// table from places in `node_ids` to internal ids.
    pub fn new(all_nodes: &[SceneNode], node_ids: &[usize], inverse_transforms: &[Transform]) -> (r:
        Result<(Animator, Vec<usize>, Vec<usize>), HierarchyError>)
        ensures
            match r {
                Ok((animator, node_to_inner, joint_to_inner)) => {
                    &&& skeleton_error(all_nodes@, node_ids@, inverse_transforms@.len()) is None
                    &&& animator.is_valid()
                    &&& animator.is_skeleton_of(
                        all_nodes@,
                        node_ids@,
                        inverse_transforms@,
                        node_to_inner@,
                        joint_to_inner@,
                    )
                },
                Err(e) => skeleton_error(all_nodes@, node_ids@, inverse_transforms@.len())
                    == Some(e),
            },
    {
        let layout = match flatten(all_nodes, node_ids) {
            Ok(layout) => layout,
            Err(e) => {
                return Err(e);
            },
        };
        if inverse_transforms.len() < node_ids.len() {
            return Err(HierarchyError::MissingInverseTransform);
        }
        let count: usize = layout.order.len();
        let mut nodes: Vec<Node> = Vec::new();
        let mut start_nodes: Vec<Node> = Vec::new();
        let mut inverse: Vec<Transform> = Vec::new();
        let mut i: usize = 0;
        while i < count
            invariant
                i <= count,
                count == layout.order@.len(),
                hierarchy_error(all_nodes@, node_ids@) is None,
                layout.describes(all_nodes@, node_ids@),
                node_ids@.len() <= inverse_transforms@.len(),
                nodes@.len() == i,
                start_nodes@ == nodes@,
                inverse@.len() == i,
                forall|k: int|
                    0 <= k < i ==> #[trigger] nodes@[k] == placement(
                        all_nodes@[layout.order@[k] as int],
                    ),
                forall|k: int|
                    0 <= k < i ==> #[trigger] inverse@[k]
                        == inverse_transforms@[layout.skin_indices@[k] as int],
            decreases count - i,
        {
            let skin_index: usize = layout.skin_indices[i];
            assert(node_ids@[skin_index as int] == layout.order@[i as int]);
            let node = &all_nodes[layout.order[i]];
            let placed = Node {
                rotation: node.rotation,
                translation: node.translation,
                scale: node.scale,
            };
            nodes.push(placed);
            start_nodes.push(placed);
            inverse.push(inverse_transforms[skin_index]);
            i += 1;
        }
        let JointLayout { order, parents, skin_indices, node_to_inner, joint_to_inner } = layout;
        proof {
            assert forall|j: int| 0 <= j < node_ids@.len() implies inverse@[(
            #[trigger] joint_to_inner@[j]) as int] == inverse_transforms@[j] by {
                let inner = joint_to_inner@[j] as int;
                assert(node_ids@[skin_indices@[inner] as int] == order@[inner]);
            }
        }
        let animator = Animator {
            nodes,
            start_nodes,
            inverse_transforms: inverse,
            parents,
            animations: Vec::new(),
        };
        Ok((animator, node_to_inner, joint_to_inner))
    }

    /// How many joints the skeleton has.
    pub fn joint_count(&self) -> (r: usize)
        requires
            self.is_valid(),
        ensures
            r == self.pose().len(),
            r == self.parent_ids().len(),
            r > 0,
    {
        self.nodes.len()
    }

    /// The placement of each joint now.
    pub fn nodes(&self) -> (r: &Vec<Node>)
        requires
            self.is_valid(),
        ensures
            r@ == self.pose(),
    {
        &self.nodes
    }

    /// The placement of each joint at rest.
    pub fn start_nodes(&self) -> (r: &Vec<Node>)
        requires
            self.is_valid(),
        ensures
            r@ == self.rest_pose(),
            r@.len() == self.pose().len(),
    {
        &self.start_nodes
    }

    /// For each joint, the transform that undoes its bind pose.
    pub fn inverse_transforms(&self) -> (r: &Vec<Transform>)
        requires
            self.is_valid(),
        ensures
            r@ == self.inverse_bind(),
            r@.len() == self.pose().len(),
    {
        &self.inverse_transforms
    }

    /// For each joint, the id of its parent: [`NO_JOINT`] for the first
    /// joint, and for every other joint an id below its own.
    pub fn parents(&self) -> (r: &Vec<usize>)
        requires
            self.is_valid(),
        ensures
            r@ == self.parent_ids(),
            r@.len() == self.pose().len(),
            parents_before_children(r@),
    {
        &self.parents
    }

    /// The clips.
    pub fn animations(&self) -> (r: &Vec<Animation>)
        requires
            self.is_valid(),
        ensures
            r@ == self.clips(),
            clips_in_range(r@, self.pose().len()),
    {
        &self.animations
    }

    /// Adds a clip, if each of its channels drives a joint of this
    /// skeleton, and gives its number; else leaves the animator as it is.
    pub fn push_animation(&mut self, animation: Animation) -> (r: Option<usize>)
        requires
            old(self).is_valid(),
        ensures
            final(self).is_valid(),
            final(self).pose() == old(self).pose(),
            final(self).rest_pose() == old(self).rest_pose(),
            final(self).inverse_bind() == old(self).inverse_bind(),
            final(self).parent_ids() == old(self).parent_ids(),
            r is Some <==> forall|c: int|
                0 <= c < animation.channels@.len() ==> (#[trigger] animation.channels@[c]).joint()
                    < old(self).pose().len(),
            match r {
                Some(id) => id == old(self).clips().len() && final(self).clips() == old(
                    self,
                ).clips().push(animation),
                None => final(self).clips() == old(self).clips(),
            },
    {
        if !drives_joints_below(&animation, self.nodes.len()) {
            return None;
        }
        let id: usize = self.animations.len();
        let ghost before = self.animations@;
        self.animations.push(animation);
        Some(id)
    }

    /// Puts every joint back to its placement at rest.
    pub fn reset(&mut self)
        requires
            old(self).is_valid(),
        ensures
            final(self).is_valid(),
            final(self).pose() == old(self).rest_pose(),
            final(self).same_skeleton(old(self)),
    {
        let mut i: usize = 0;
        while i < self.nodes.len()
            invariant
                self.is_valid(),
                self.same_skeleton(old(self)),
                i <= self.nodes@.len(),
                self.nodes@.len() == self.start_nodes@.len(),
                forall|k: int| 0 <= k < i ==> #[trigger] self.nodes@[k] == self.start_nodes@[k],
            decreases self.nodes@.len() - i,
        {
            let node: Node = self.start_nodes[i];
            self.nodes.set(i, node);
            i += 1;
        }
        assert(self.nodes@ =~= self.start_nodes@);
    }

    /// Writes one value into the pose: the one part of the placement of the
    /// one joint is replaced.
    pub fn apply(&mut self, value: AnimatedValue)
        requires
            old(self).is_valid(),
            joint_of(value) < old(self).pose().len(),
        ensures
            final(self).is_valid(),
            final(self).pose() == apply_value(old(self).pose(), value),
            final(self).same_skeleton(old(self)),
    {
        match value {
            AnimatedValue::Translation(joint, translation) => {
                let mut node: Node = self.nodes[joint];
                node.translation = translation;
                self.nodes.set(joint, node);
            },
            AnimatedValue::Rotation(joint, rotation) => {
                let mut node: Node = self.nodes[joint];
                node.rotation = rotation;
                self.nodes.set(joint, node);
            },
            AnimatedValue::Scale(joint, scale) => {
                let mut node: Node = self.nodes[joint];
                node.scale = scale;
                self.nodes.set(joint, node);
            },
        }
    }

    /// What each channel of clip `id` gives for the time `t`, in the order
    /// of the channels.
    pub fn sample(&self, id: usize, t: Scalar) -> (r: Vec<AnimatedSample>)
        requires
            self.is_valid(),
            id < self.clips().len(),
        ensures
            r@ == self.clips()[id as int].samples_at(t),
            forall|i: int| 0 <= i < r@.len() ==> (#[trigger] r@[i]).joint() < self.pose().len(),
    {
        let samples = self.animations[id].compute(t);
        proof {
            let clip = self.animations@[id as int];
            assert forall|i: int| 0 <= i < samples@.len() implies (#[trigger] samples@[i]).joint()
                < self.nodes@.len() by {
                assert(clip.channels@[i].joint() < self.nodes@.len());
            }
        }
        samples
    }
}

/// Whether every channel of the clip drives a joint below `count`.
fn drives_joints_below(animation: &Animation, count: usize) -> (r: bool)
    ensures
        r <==> forall|c: int|
            0 <= c < animation.channels@.len() ==> (#[trigger] animation.channels@[c]).joint()
                < count,
{
    let mut c: usize = 0;
    while c < animation.channels.len()
        invariant
            c <= animation.channels@.len(),
            forall|k: int| 0 <= k < c ==> (#[trigger] animation.channels@[k]).joint() < count,
        decreases animation.channels@.len() - c,
    {
        if animation.channels[c].node_id() >= count {
            return false;
        }
        c += 1;
    }
    true
}

/// What is wrong with a scene graph, its joints and the number of inverse
/// bind transforms given for them, if anything.
pub open spec fn skeleton_error(nodes: Seq<SceneNode>, joints: Seq<usize>, inverse_count: nat) -> Option<
    HierarchyError,
> {
    match hierarchy_error(nodes, joints) {
        Some(e) => Some(e),
        None => if inverse_count < joints.len() {
            Some(HierarchyError::MissingInverseTransform)
        } else {
            None
        },
    }
}

/// What a sample comes to: its own value, or what `blend` makes of it.
fn resolve<T: Copy, F: Fn(Sample<T>) -> T>(blend: &F, sample: Sample<T>) -> (r: T)
    requires
        !(sample is Value) ==> call_requires(*blend, (sample,)),
    ensures
        blended(*blend, sample, r),
{
    match sample {
        Sample::Value(v) => v,
        _ => blend(sample),
    }
}

impl Animator {
    /// Plays clip `id` at the time `t`: writes into the pose, channel by
    /// channel, what each channel gives for `t`. What has to be blended is
    /// handed to `blend_vec3` or `blend_quaternion`.
    pub fn animate<FV: Fn(Sample<Vec3>) -> Vec3, FQ: Fn(Sample<Quaternion>) -> Quaternion>(
        &mut self,
        id: usize,
        t: Scalar,
        blend_vec3: FV,
        blend_quaternion: FQ,
    )
        requires
            old(self).is_valid(),
            id < old(self).clips().len(),
            forall|s: Sample<Vec3>| !(s is Value) ==> call_requires(blend_vec3, (s,)),
            forall|s: Sample<Quaternion>| !(s is Value) ==> call_requires(blend_quaternion, (s,)),
        ensures
            final(self).is_valid(),
            final(self).same_skeleton(old(self)),
            exists|values: Seq<AnimatedValue>|
                #[trigger] resolved_all(
                    blend_vec3,
                    blend_quaternion,
                    old(self).clips()[id as int].samples_at(t),
                    values,
                ) && final(self).pose() == apply_values(old(self).pose(), values),
    {
        let samples = self.sample(id, t);
        let ghost mut values: Seq<AnimatedValue> = Seq::empty();
        let mut i: usize = 0;
        while i < samples.len()
            invariant
                i <= samples@.len(),
                self.is_valid(),
                self.same_skeleton(old(self)),
                self.pose().len() == old(self).pose().len(),
                forall|s: Sample<Vec3>| !(s is Value) ==> call_requires(blend_vec3, (s,)),
                forall|s: Sample<Quaternion>|
                    !(s is Value) ==> call_requires(blend_quaternion, (s,)),
                forall|k: int|
                    0 <= k < samples@.len() ==> (#[trigger] samples@[k]).joint() < self.pose().len(),
                values.len() == i,
                forall|k: int|
                    0 <= k < i ==> resolved(
                        blend_vec3,
                        blend_quaternion,
                        samples@[k],
                        #[trigger] values[k],
                    ),
                self.pose() == apply_values(old(self).pose(), values),
            decreases samples@.len() - i,
        {
            let sample: AnimatedSample = samples[i];
            assert(sample.joint() < self.pose().len());
            let value: AnimatedValue = match sample {
                AnimatedSample::Translation(joint, s) => AnimatedValue::Translation(
                    joint,
                    resolve(&blend_vec3, s),
                ),
                AnimatedSample::Rotation(joint, s) => AnimatedValue::Rotation(
                    joint,
                    resolve(&blend_quaternion, s),
                ),
                AnimatedSample::Scale(joint, s) => AnimatedValue::Scale(
                    joint,
                    resolve(&blend_vec3, s),
                ),
            };
            self.apply(value);
            proof {
                assert(values.push(value).drop_last() =~= values);
                values = values.push(value);
            }
            i += 1;
        }
        assert(resolved_all(
            blend_vec3,
            blend_quaternion,
            old(self).clips()[id as int].samples_at(t),
            values,
        ));
    }

    /// Scales joint `node_id` on top of its scale now: its new scale is
    /// what `multiply` makes of the scale now and `scale`.
    pub fn scale_node<F: Fn(Vec3, Vec3) -> Vec3>(&mut self, node_id: usize, scale: Vec3, multiply: F)
        requires
            old(self).is_valid(),
            node_id < old(self).pose().len(),
            call_requires(multiply, (old(self).pose()[node_id as int].scale, scale)),
        ensures
            final(self).is_valid(),
            final(self).same_skeleton(old(self)),
            exists|scaled: Vec3|
                #[trigger] call_ensures(
                    multiply,
                    (old(self).pose()[node_id as int].scale, scale),
                    scaled,
                ) && final(self).pose() == apply_value(
                    old(self).pose(),
                    AnimatedValue::Scale(node_id, scaled),
                ),
    {
        let now: Node = self.nodes[node_id];
        let scaled: Vec3 = multiply(now.scale, scale);
        self.apply(AnimatedValue::Scale(node_id, scaled));
    }

    /// Moves joint `node_id` on top of its translation now: its new
    /// translation is what `sum` makes of the translation now and
    /// `translation`.
    pub fn translate_node<F: Fn(Vec3, Vec3) -> Vec3>(
        &mut self,
        node_id: usize,
        translation: Vec3,
        sum: F,
    )
        requires
            old(self).is_valid(),
            node_id < old(self).pose().len(),
            call_requires(sum, (old(self).pose()[node_id as int].translation, translation)),
        ensures
            final(self).is_valid(),
            final(self).same_skeleton(old(self)),
            exists|moved: Vec3|
                #[trigger] call_ensures(
                    sum,
                    (old(self).pose()[node_id as int].translation, translation),
                    moved,
                ) && final(self).pose() == apply_value(
                    old(self).pose(),
                    AnimatedValue::Translation(node_id, moved),
                ),
    {
        let now: Node = self.nodes[node_id];
        let moved: Vec3 = sum(now.translation, translation);
        self.apply(AnimatedValue::Translation(node_id, moved));
    }

    /// Turns joint `node_id` after its rotation now: its new rotation is
    /// what `multiply` makes of `rotation` and the rotation now, in this
    /// order.
    pub fn rotate_node<F: Fn(Quaternion, Quaternion) -> Quaternion>(
        &mut self,
        node_id: usize,
        rotation: Quaternion,
        multiply: F,
    )
        requires
            old(self).is_valid(),
            node_id < old(self).pose().len(),
            call_requires(multiply, (rotation, old(self).pose()[node_id as int].rotation)),
        ensures
            final(self).is_valid(),
            final(self).same_skeleton(old(self)),
            exists|turned: Quaternion|
                #[trigger] call_ensures(
                    multiply,
                    (rotation, old(self).pose()[node_id as int].rotation),
                    turned,
                ) && final(self).pose() == apply_value(
                    old(self).pose(),
                    AnimatedValue::Rotation(node_id, turned),
                ),
    {
        let now: Node = self.nodes[node_id];
        let turned: Quaternion = multiply(rotation, now.rotation);
        self.apply(AnimatedValue::Rotation(node_id, turned));
    }

    /// The skinning transforms of the pose, one per joint in the order of
    /// the internal ids: one pass from the first joint to the last, in
    /// which every joint finds its parent's transform made before its own.
    ///
    /// `from_trs` makes the transform of a placement, and `compose(a, b)`
    /// the transform that applies `a`, then `b`.
    pub fn compute_transforms<
        FT: Fn(Vec3, Quaternion, Vec3) -> Transform,
        FC: Fn(Transform, Transform) -> Transform,
    >(&self, from_trs: FT, compose: FC) -> (r: Vec<Transform>)
        requires
            self.is_valid(),
            forall|t: Vec3, r: Quaternion, s: Vec3| call_requires(from_trs, (t, r, s)),
            forall|a: Transform, b: Transform| call_requires(compose, (a, b)),
        ensures
            exists|cumulated: Seq<Transform>|
                #[trigger] is_skinning(
                    from_trs,
                    compose,
                    self.pose(),
                    self.parent_ids(),
                    self.inverse_bind(),
                    cumulated,
                    r@,
                ),
    {
        let count: usize = self.nodes.len();
        let mut cumulated: Vec<Transform> = Vec::new();
        let mut result: Vec<Transform> = Vec::new();
        let mut i: usize = 0;
        while i < count
            invariant
                i <= count,
                self.is_valid(),
                count == self.nodes@.len(),
                forall|t: Vec3, r: Quaternion, s: Vec3| call_requires(from_trs, (t, r, s)),
                forall|a: Transform, b: Transform| call_requires(compose, (a, b)),
                cumulated@.len() == i,
                result@.len() == i,
                forall|k: int|
                    0 <= k < i ==> call_ensures(
                        compose,
                        (cumulated@[k], self.inverse_transforms@[k]),
                        #[trigger] result@[k],
                    ),
                forall|k: int|
                    0 <= k < i ==> is_cumulated(
                        from_trs,
                        compose,
                        self.nodes@[k],
                        if k == 0 {
                            None
                        } else {
                            Some(cumulated@[self.parents@[k] as int])
                        },
                        #[trigger] cumulated@[k],
                    ),
            decreases count - i,
        {
            let node: Node = self.nodes[i];
            let local: Transform = from_trs(node.translation, node.rotation, node.scale);
            let ghost before = cumulated@;
            let transform: Transform = if i == 0 {
                local
            } else {
                compose(cumulated[self.parents[i]], local)
            };
            cumulated.push(transform);
            result.push(compose(transform, self.inverse_transforms[i]));
            proof {
                assert forall|k: int| 0 <= k < i + 1 implies is_cumulated(
                    from_trs,
                    compose,
                    self.nodes@[k],
                    if k == 0 {
                        None
                    } else {
                        Some(cumulated@[self.parents@[k] as int])
                    },
                    #[trigger] cumulated@[k],
                ) by {
                    if k < i {
                        assert(cumulated@[k] == before[k]);
                        if k > 0 {
                            assert(cumulated@[self.parents@[k] as int]
                                == before[self.parents@[k] as int]);
                        }
                    }
                }
            }
            i += 1;
        }
        assert(is_skinning(
            from_trs,
            compose,
            self.pose(),
            self.parent_ids(),
            self.inverse_bind(),
            cumulated@,
            result@,
        ));
        result
    }
}

/// Whatever was played on an animator since it was built, after a reset
/// it is as it was built: the same pose on the same skeleton, and so the
/// same skinning transforms.
///
/// `fresh` is the animator as built, `played` the animator at some later
/// time, and `reset` what a reset makes of `played`.
pub proof fn lemma_reset_restores<
    FT: Fn(Vec3, Quaternion, Vec3) -> Transform,
    FC: Fn(Transform, Transform) -> Transform,
>(fresh: Animator, played: Animator, reset: Animator, from_trs: FT, compose: FC)
    requires
        fresh.pose() == fresh.rest_pose(),
        played.same_skeleton(&fresh),
        reset.pose() == played.rest_pose(),
        reset.same_skeleton(&played),
    ensures
        reset.pose() == fresh.pose(),
        reset.same_skeleton(&fresh),
        forall|cumulated: Seq<Transform>, result: Seq<Transform>|
            is_skinning(
                from_trs,
                compose,
                reset.pose(),
                reset.parent_ids(),
                reset.inverse_bind(),
                cumulated,
                result,
            ) <==> is_skinning(
                from_trs,
                compose,
                fresh.pose(),
                fresh.parent_ids(),
                fresh.inverse_bind(),
                cumulated,
                result,
            ),
{
}

} // verus!
