use vstd::prelude::*;
use crate::geometry::quaternion::Quaternion;
use crate::geometry::vec3::Vec3;

verus! {

/// Stands where a joint index is expected and there is no joint: the parent
/// of the root joint, the joint of a node that is none.
pub const NO_JOINT: usize = usize::MAX;

/// One node of an asset's scene graph: the nodes below it, by their place in
/// the asset's node list, and its own placement relative to its parent.
#[derive(Clone, Debug)]
pub struct SceneNode {
    pub children: Vec<usize>,
    pub translation: Vec3,
    pub rotation: Quaternion,
    pub scale: Vec3,
}

/// Why a scene graph and a list of joints do not make a skeleton.
#[derive(Clone, Copy, Debug, PartialEq, Eq, Structural)]
pub enum HierarchyError {
    /// The list of joints is empty.
    NoJoints,
    /// A joint is no node of the graph.
    JointOutOfRange,
    /// A node is listed as a joint twice.
    DuplicateJoint,
    /// A child is no node of the graph.
    ChildOutOfRange,
    /// A node is listed as a child twice, under one parent or under two.
    SharedChild,
    /// Walking up from the first joint never reaches a node without a parent.
    NoRoot,
    /// A joint other than the first one met has no joint as its parent.
    DetachedJoint,
    /// A joint does not hang under the root.
    UnreachableJoint,
    /// There are fewer inverse bind transforms than joints.
    MissingInverseTransform,
}

/// Whether node `parent` lists `child` among its children.
pub open spec fn is_child(nodes: Seq<SceneNode>, parent: int, child: usize) -> bool {
    0 <= parent < nodes.len() && nodes[parent].children@.contains(child)
}

/// Whether some node lists `child` among its children.
pub open spec fn has_parent(nodes: Seq<SceneNode>, child: usize) -> bool {
    exists|parent: int| is_child(nodes, parent, child)
}

/// A node that lists `child` among its children: the only one, where
/// [`single_parent`] holds.
pub open spec fn parent_of(nodes: Seq<SceneNode>, child: usize) -> int {
    choose|parent: int| is_child(nodes, parent, child)
}

/// Whether every joint is a node of the graph.
pub open spec fn joints_in_range(nodes: Seq<SceneNode>, joints: Seq<usize>) -> bool {
    forall|j: int| 0 <= j < joints.len() ==> #[trigger] joints[j] < nodes.len()
}

/// Whether every child is a node of the graph.
pub open spec fn children_in_range(nodes: Seq<SceneNode>) -> bool {
    forall|p: int, k: int|
        0 <= p < nodes.len() && 0 <= k < nodes[p].children@.len()
            ==> #[trigger] nodes[p].children@[k] < nodes.len()
}

/// Whether no node is listed as a child twice.
pub open spec fn single_parent(nodes: Seq<SceneNode>) -> bool {
    forall|p: int, k: int, q: int, l: int|
        0 <= p < nodes.len() && 0 <= k < nodes[p].children@.len() && 0 <= q < nodes.len() && 0
            <= l < nodes[q].children@.len() && (p != q || k != l)
            ==> #[trigger] nodes[p].children@[k] != #[trigger] nodes[q].children@[l]
}

/// The node reached from `node` by going up to the parent `steps` times,
/// staying where there is no parent.
pub open spec fn ancestor(nodes: Seq<SceneNode>, node: usize, steps: nat) -> usize
    decreases steps,
{
    if steps == 0 {
        node
    } else {
        let below = ancestor(nodes, node, (steps - 1) as nat);
        if has_parent(nodes, below) {
            parent_of(nodes, below) as usize
        } else {
            below
        }
    }
}

/// Where walking up from `node` ends: the node reached after as many steps
/// as there are nodes. A walk that has found no root by then never finds one
/// (see [`lemma_no_root_is_a_circle`]).
pub open spec fn root_of(nodes: Seq<SceneNode>, node: usize) -> usize {
    ancestor(nodes, node, nodes.len())
}

/// The nodes of the subtree of `node` in the order of a depth-first walk that
/// takes a node before its children, and the children of one node from the
/// last to the first. The walk goes no deeper than `depth` levels.
pub open spec fn walk(nodes: Seq<SceneNode>, node: usize, depth: nat) -> Seq<usize>
    decreases depth, 0nat,
{
    if depth == 0 {
        Seq::empty()
    } else {
        seq![node] + walk_all(nodes, nodes[node as int].children@, (depth - 1) as nat)
    }
}

/// The walks of the subtrees of `siblings`, one after the other, that of the
/// last sibling first.
pub open spec fn walk_all(nodes: Seq<SceneNode>, siblings: Seq<usize>, depth: nat) -> Seq<usize>
    decreases depth, siblings.len() + 1,
{
    if siblings.len() == 0 {
        Seq::empty()
    } else {
        walk(nodes, siblings.last(), depth) + walk_all(nodes, siblings.drop_last(), depth)
    }
}

/// The test "is a joint", as a function.
pub open spec fn is_joint(joints: Seq<usize>) -> spec_fn(usize) -> bool {
    |node: usize| joints.contains(node)
}

/// The joints in the order in which the walk from the root meets them: the
/// place of a joint in this sequence is its internal id.
pub open spec fn joint_order(nodes: Seq<SceneNode>, joints: Seq<usize>) -> Seq<usize> {
    walk(nodes, root_of(nodes, joints[0]), nodes.len()).filter(is_joint(joints))
}

/// Whether no joint lists the joint at place `i` of `order` among its
/// children.
pub open spec fn is_detached(
    nodes: Seq<SceneNode>,
    joints: Seq<usize>,
    order: Seq<usize>,
    i: int,
) -> bool {
    forall|p: int| is_child(nodes, p, order[i]) ==> !joints.contains(p as usize)
}

/// What is wrong with a scene graph and its joints, if anything. Of several
/// faults the first in the order of [`HierarchyError`] is named.
pub open spec fn hierarchy_error(nodes: Seq<SceneNode>, joints: Seq<usize>) -> Option<
    HierarchyError,
> {
    let order = joint_order(nodes, joints);
    if joints.len() == 0 {
        Some(HierarchyError::NoJoints)
    } else if !joints_in_range(nodes, joints) {
        Some(HierarchyError::JointOutOfRange)
    } else if !joints.no_duplicates() {
        Some(HierarchyError::DuplicateJoint)
    } else if !children_in_range(nodes) {
        Some(HierarchyError::ChildOutOfRange)
    } else if !single_parent(nodes) {
        Some(HierarchyError::SharedChild)
    } else if has_parent(nodes, root_of(nodes, joints[0])) {
        Some(HierarchyError::NoRoot)
    } else if exists|i: int| 0 < i < order.len() && is_detached(nodes, joints, order, i) {
        Some(HierarchyError::DetachedJoint)
    } else if exists|j: int| 0 <= j < joints.len() && !order.contains(joints[j]) {
        Some(HierarchyError::UnreachableJoint)
    } else {
        None
    }
}

/// Whether `table` gives, for each node, its place in `joints`, and
/// [`NO_JOINT`] for a node that is no joint.
pub open spec fn is_joint_table(table: Seq<usize>, nodes: Seq<SceneNode>, joints: Seq<usize>) -> bool {
    &&& table.len() == nodes.len()
    &&& forall|g: int|
        0 <= g < nodes.len() ==> if #[trigger] table[g] == NO_JOINT {
            !joints.contains(g as usize)
        } else {
            table[g] < joints.len() && joints[table[g] as int] == g
        }
}

/// Whether `table` gives, for each node, a node that lists it as a child, and
/// [`NO_JOINT`] for a node that none lists.
pub open spec fn is_parent_table(table: Seq<usize>, nodes: Seq<SceneNode>) -> bool {
    &&& table.len() == nodes.len()
    &&& forall|c: int|
        0 <= c < nodes.len() ==> if #[trigger] table[c] == NO_JOINT {
            !has_parent(nodes, c as usize)
        } else {
            is_child(nodes, table[c] as int, c as usize)
        }
}

fn index_joints(all_nodes: &[SceneNode], node_ids: &[usize]) -> (r: Result<
    Vec<usize>,
    HierarchyError,
>)
    ensures
        match r {
            Ok(table) => {
                &&& joints_in_range(all_nodes@, node_ids@)
                &&& node_ids@.no_duplicates()
                &&& is_joint_table(table@, all_nodes@, node_ids@)
            },
            Err(e) => {
                &&& e == HierarchyError::JointOutOfRange || e == HierarchyError::DuplicateJoint
                &&& e == HierarchyError::JointOutOfRange <==> !joints_in_range(
                    all_nodes@,
                    node_ids@,
                )
                &&& e == HierarchyError::DuplicateJoint ==> !node_ids@.no_duplicates()
            },
        },
{
    let n: usize = all_nodes.len();
    let mut i: usize = 0;
    while i < node_ids.len()
        invariant
            i <= node_ids.len(),
            n == all_nodes.len(),
            forall|j: int| 0 <= j < i ==> #[trigger] node_ids@[j] < n,
        decreases node_ids.len() - i,
    {
        if node_ids[i] >= n {
            return Err(HierarchyError::JointOutOfRange);
        }
        i += 1;
    }
    let mut table: Vec<usize> = vec![NO_JOINT; n];
    let mut i: usize = 0;
    while i < node_ids.len()
        invariant
            i <= node_ids.len(),
            n == all_nodes.len(),
            table@.len() == n,
            joints_in_range(all_nodes@, node_ids@),
            node_ids@.take(i as int).no_duplicates(),
            is_joint_table(table@, all_nodes@, node_ids@.take(i as int)),
        decreases node_ids.len() - i,
    {
        let node: usize = node_ids[i];
        let ghost before = node_ids@.take(i as int);
        let ghost after = node_ids@.take(i + 1);
        assert(after =~= before.push(node));
        if table[node] != NO_JOINT {
            proof {
                let first = table@[node as int] as int;
                assert(node_ids@[first] == node_ids@[i as int]);
            }
            return Err(HierarchyError::DuplicateJoint);
        }
        table[node] = i;
        proof {
            assert(!before.contains(node));
            assert(after.no_duplicates());
            assert forall|g: int| 0 <= g < n implies if #[trigger] table@[g] == NO_JOINT {
                !after.contains(g as usize)
            } else {
                table@[g] < after.len() && after[table@[g] as int] == g
            } by {
                if g != node {
                    if before.contains(g as usize) {
                    } else if after.contains(g as usize) {
                        let w = choose|w: int| 0 <= w < after.len() && after[w] == g as usize;
                        assert(before[w] == g as usize);
                    }
                }
            }
        }
        i += 1;
    }
    assert(node_ids@.take(i as int) =~= node_ids@);
    Ok(table)
}

/// Whether `(q, l)` is a place in the child lists that comes before place
/// `(p, k)`, reading the lists node by node.
spec fn listed_before(nodes: Seq<SceneNode>, p: int, k: int, q: int, l: int) -> bool {
    0 <= q < nodes.len() && 0 <= l < nodes[q].children@.len() && (q < p || (q == p && l < k))
}

/// What holds of the table of parents when the child lists have been read
/// up to place `(p, k)`.
spec fn parents_read_to(table: Seq<usize>, nodes: Seq<SceneNode>, p: int, k: int) -> bool {
    &&& table.len() == nodes.len()
    &&& forall|q1: int, l1: int, q2: int, l2: int|
        #[trigger] listed_before(nodes, p, k, q1, l1) && #[trigger] listed_before(
            nodes,
            p,
            k,
            q2,
            l2,
        ) && (q1 != q2 || l1 != l2) ==> nodes[q1].children@[l1] != nodes[q2].children@[l2]
    &&& forall|c: int, q: int, l: int|
        0 <= c < nodes.len() && #[trigger] table[c] == NO_JOINT && #[trigger] listed_before(
            nodes,
            p,
            k,
            q,
            l,
        ) ==> nodes[q].children@[l] != c
    &&& forall|c: int|
        0 <= c < nodes.len() && #[trigger] table[c] != NO_JOINT ==> exists|l: int|
            #[trigger] listed_before(nodes, p, k, table[c] as int, l)
                && nodes[table[c] as int].children@[l] == c
}

/// Having read the whole child list of node `p` is having read up to the
/// start of the next list.
proof fn lemma_list_read(table: Seq<usize>, nodes: Seq<SceneNode>, p: int)
    requires
        0 <= p < nodes.len(),
        parents_read_to(table, nodes, p, nodes[p].children@.len() as int),
    ensures
        parents_read_to(table, nodes, p + 1, 0),
{
    let k = nodes[p].children@.len() as int;
    assert forall|q: int, l: int| listed_before(nodes, p + 1, 0, q, l) == listed_before(
        nodes,
        p,
        k,
        q,
        l,
    ) by {}
    assert forall|q1: int, l1: int, q2: int, l2: int|
        #[trigger] listed_before(nodes, p + 1, 0, q1, l1) && #[trigger] listed_before(
            nodes,
            p + 1,
            0,
            q2,
            l2,
        ) && (q1 != q2 || l1 != l2) implies nodes[q1].children@[l1] != nodes[q2].children@[l2] by {
        assert(listed_before(nodes, p, k, q1, l1));
        assert(listed_before(nodes, p, k, q2, l2));
    }
    assert forall|c: int, q: int, l: int|
        0 <= c < nodes.len() && #[trigger] table[c] == NO_JOINT && #[trigger] listed_before(
            nodes,
            p + 1,
            0,
            q,
            l,
        ) implies nodes[q].children@[l] != c by {
        assert(listed_before(nodes, p, k, q, l));
    }
    assert forall|c: int| 0 <= c < nodes.len() && #[trigger] table[c] != NO_JOINT implies exists|
        l: int,
    |
        #[trigger] listed_before(nodes, p + 1, 0, table[c] as int, l)
            && nodes[table[c] as int].children@[l] == c by {
        let l = choose|l: int|
            #[trigger] listed_before(nodes, p, k, table[c] as int, l)
                && nodes[table[c] as int].children@[l] == c;
        assert(listed_before(nodes, p + 1, 0, table[c] as int, l));
    }
}

fn record_parents(all_nodes: &[SceneNode]) -> (r: Result<Vec<usize>, HierarchyError>)
    ensures
        match r {
            Ok(table) => {
                &&& children_in_range(all_nodes@)
                &&& single_parent(all_nodes@)
                &&& is_parent_table(table@, all_nodes@)
            },
            Err(e) => {
                &&& e == HierarchyError::ChildOutOfRange || e == HierarchyError::SharedChild
                &&& e == HierarchyError::ChildOutOfRange <==> !children_in_range(all_nodes@)
                &&& e == HierarchyError::SharedChild ==> !single_parent(all_nodes@)
            },
        },
{
    let n: usize = all_nodes.len();
    let mut p: usize = 0;
    while p < n
        invariant
            p <= n,
            n == all_nodes.len(),
            forall|q: int, l: int|
                0 <= q < p && 0 <= l < all_nodes@[q].children@.len()
                    ==> #[trigger] all_nodes@[q].children@[l] < n,
        decreases n - p,
    {
        let children = &all_nodes[p].children;
        let mut k: usize = 0;
        while k < children.len()
            invariant
                k <= children.len(),
                p < n,
                n == all_nodes.len(),
                children == all_nodes@[p as int].children,
                forall|l: int| 0 <= l < k ==> #[trigger] children@[l] < n,
            decreases children.len() - k,
        {
            if children[k] >= n {
                return Err(HierarchyError::ChildOutOfRange);
            }
            k += 1;
        }
        p += 1;
    }
    assert(children_in_range(all_nodes@));
    let mut table: Vec<usize> = vec![NO_JOINT; n];
    let mut p: usize = 0;
    while p < n
        invariant
            p <= n,
            n == all_nodes.len(),
            children_in_range(all_nodes@),
            parents_read_to(table@, all_nodes@, p as int, 0),
        decreases n - p,
    {
        let children = &all_nodes[p].children;
        let mut k: usize = 0;
        while k < children.len()
            invariant
                k <= children.len(),
                p < n,
                n == all_nodes.len(),
                children == all_nodes@[p as int].children,
                children_in_range(all_nodes@),
                parents_read_to(table@, all_nodes@, p as int, k as int),
            decreases children.len() - k,
        {
            let child: usize = children[k];
            assert(child == all_nodes@[p as int].children@[k as int]);
            if table[child] != NO_JOINT {
                proof {
                    let q = table@[child as int] as int;
                    let l = choose|l: int|
                        #[trigger] listed_before(all_nodes@, p as int, k as int, q, l)
                            && all_nodes@[q].children@[l] == child;
                    assert(all_nodes@[q].children@[l] == all_nodes@[p as int].children@[k as int]);
                }
                return Err(HierarchyError::SharedChild);
            }
            let ghost before = table@;
            table[child] = p;
            proof {
                let nodes = all_nodes@;
                let pi = p as int;
                let ki = k as int;
                assert forall|q1: int, l1: int, q2: int, l2: int|
                    #[trigger] listed_before(nodes, pi, ki + 1, q1, l1) && #[trigger] listed_before(
                        nodes,
                        pi,
                        ki + 1,
                        q2,
                        l2,
                    ) && (q1 != q2 || l1 != l2) implies nodes[q1].children@[l1]
                    != nodes[q2].children@[l2] by {
                    if q1 == pi && l1 == ki {
                        assert(listed_before(nodes, pi, ki, q2, l2));
                    } else if q2 == pi && l2 == ki {
                        assert(listed_before(nodes, pi, ki, q1, l1));
                    } else {
                        assert(listed_before(nodes, pi, ki, q1, l1));
                        assert(listed_before(nodes, pi, ki, q2, l2));
                    }
                }
                assert forall|c: int, q: int, l: int|
                    0 <= c < nodes.len() && #[trigger] table@[c] == NO_JOINT
                        && #[trigger] listed_before(nodes, pi, ki + 1, q, l) implies nodes[q].children@[l]
                    != c by {
                    assert(before[c] == NO_JOINT);
                    if q == pi && l == ki {
                    } else {
                        assert(listed_before(nodes, pi, ki, q, l));
                    }
                }
                assert forall|c: int| 0 <= c < nodes.len() && #[trigger] table@[c]
                    != NO_JOINT implies exists|l: int|
                    #[trigger] listed_before(nodes, pi, ki + 1, table@[c] as int, l)
                        && nodes[table@[c] as int].children@[l] == c by {
                    if c == child {
                        assert(listed_before(nodes, pi, ki + 1, pi, ki));
                    } else {
                        assert(before[c] != NO_JOINT);
                        let l = choose|l: int|
                            #[trigger] listed_before(nodes, pi, ki, before[c] as int, l)
                                && nodes[before[c] as int].children@[l] == c;
                        assert(listed_before(nodes, pi, ki + 1, table@[c] as int, l));
                    }
                }
            }
            k += 1;
        }
        proof {
            lemma_list_read(table@, all_nodes@, p as int);
        }
        p += 1;
    }
    proof {
        let nodes = all_nodes@;
        let ni = n as int;
        assert forall|q: int, l: int|
            0 <= q < nodes.len() && 0 <= l < nodes[q].children@.len() implies listed_before(
            nodes,
            ni,
            0,
            q,
            l,
        ) by {}
        assert forall|p: int, k: int, q: int, l: int|
            0 <= p < nodes.len() && 0 <= k < nodes[p].children@.len() && 0 <= q < nodes.len() && 0
                <= l < nodes[q].children@.len() && (p != q || k != l) implies #[trigger] nodes[p].children@[k]
            != #[trigger] nodes[q].children@[l] by {
            assert(listed_before(nodes, ni, 0, p, k));
            assert(listed_before(nodes, ni, 0, q, l));
        }
        assert forall|c: int| 0 <= c < nodes.len() implies if #[trigger] table@[c] == NO_JOINT {
            !has_parent(nodes, c as usize)
        } else {
            is_child(nodes, table@[c] as int, c as usize)
        } by {
            if table@[c] == NO_JOINT {
                let node = c as usize;
                if has_parent(nodes, node) {
                    let q = choose|q: int| is_child(nodes, q, node);
                    let l = choose|l: int|
                        0 <= l < nodes[q].children@.len() && nodes[q].children@[l] == node;
                    assert(listed_before(nodes, ni, 0, q, l));
                }
            } else {
                let l = choose|l: int|
                    #[trigger] listed_before(nodes, ni, 0, table@[c] as int, l)
                        && nodes[table@[c] as int].children@[l] == c;
                assert(nodes[table@[c] as int].children@[l] == c as usize);
            }
        }
    }
    Ok(table)
}

/// Where no node is listed as a child twice, a node has one parent at most.
proof fn lemma_parent_unique(nodes: Seq<SceneNode>, p: int, q: int, child: usize)
    requires
        single_parent(nodes),
        is_child(nodes, p, child),
        is_child(nodes, q, child),
    ensures
        p == q,
{
    let k = choose|k: int| 0 <= k < nodes[p].children@.len() && nodes[p].children@[k] == child;
    let l = choose|l: int| 0 <= l < nodes[q].children@.len() && nodes[q].children@[l] == child;
    assert(nodes[p].children@[k] == nodes[q].children@[l]);
}

/// The table of parents names the parent of every node that has one.
proof fn lemma_table_parent(table: Seq<usize>, nodes: Seq<SceneNode>, child: usize)
    requires
        single_parent(nodes),
        is_parent_table(table, nodes),
        child < nodes.len(),
    ensures
        table[child as int] == NO_JOINT <==> !has_parent(nodes, child),
        has_parent(nodes, child) ==> parent_of(nodes, child) == table[child as int]
            && table[child as int] < nodes.len(),
{
    let entry = table[child as int];
    if entry != NO_JOINT {
        assert(is_child(nodes, entry as int, child));
        lemma_parent_unique(nodes, entry as int, parent_of(nodes, child), child);
    }
}

/// Once the walk up has come to a node without a parent, it stays there.
proof fn lemma_ancestor_stays(nodes: Seq<SceneNode>, node: usize, reached: nat, later: nat)
    requires
        !has_parent(nodes, ancestor(nodes, node, reached)),
        reached <= later,
    ensures
        ancestor(nodes, node, later) == ancestor(nodes, node, reached),
    decreases later,
{
    if later > reached {
        lemma_ancestor_stays(nodes, node, reached, (later - 1) as nat);
    }
}

fn find_root(all_nodes: &[SceneNode], parent_table: &Vec<usize>, start: usize) -> (r: Option<usize>)
    requires
        single_parent(all_nodes@),
        is_parent_table(parent_table@, all_nodes@),
        start < all_nodes.len(),
    ensures
        match r {
            Some(root) => {
                &&& root == root_of(all_nodes@, start)
                &&& root < all_nodes.len()
                &&& !has_parent(all_nodes@, root)
            },
            None => has_parent(all_nodes@, root_of(all_nodes@, start)),
        },
{
    let n: usize = all_nodes.len();
    let mut node: usize = start;
    let mut steps: usize = 0;
    while steps < n && parent_table[node] != NO_JOINT
        invariant
            steps <= n,
            n == all_nodes.len(),
            node < n,
            node == ancestor(all_nodes@, start, steps as nat),
            single_parent(all_nodes@),
            is_parent_table(parent_table@, all_nodes@),
        decreases n - steps,
    {
        proof {
            lemma_table_parent(parent_table@, all_nodes@, node);
        }
        node = parent_table[node];
        steps += 1;
    }
    proof {
        lemma_table_parent(parent_table@, all_nodes@, node);
    }
    if parent_table[node] != NO_JOINT {
        None
    } else {
        proof {
            lemma_ancestor_stays(all_nodes@, start, steps as nat, n as nat);
        }
        Some(node)
    }
}

/// Different numbers below a bound are no more than the bound.
pub proof fn lemma_distinct_bounded(s: Seq<usize>, bound: nat)
    requires
        s.no_duplicates(),
        forall|i: int| 0 <= i < s.len() ==> #[trigger] s[i] < bound,
    ensures
        s.len() <= bound,
    decreases bound,
{
    if bound == 0 {
        if s.len() > 0 {
            assert(s[0] < bound);
        }
    } else if exists|i: int| 0 <= i < s.len() && s[i] == bound - 1 {
        let i = choose|i: int| 0 <= i < s.len() && s[i] == bound - 1;
        let rest = s.remove(i);
        s.remove_ensures(i);
        assert forall|j: int| 0 <= j < rest.len() implies #[trigger] rest[j] < bound - 1 by {
            if j < i {
                assert(rest[j] == s[j]);
            } else {
                assert(rest[j] == s[j + 1]);
            }
        }
        assert forall|j: int, k: int| 0 <= j < rest.len() && 0 <= k < rest.len() && j != k implies rest[j]
            != rest[k] by {
            let sj = if j < i { j } else { j + 1 };
            let sk = if k < i { k } else { k + 1 };
            assert(rest[j] == s[sj] && rest[k] == s[sk]);
        }
        lemma_distinct_bounded(rest, (bound - 1) as nat);
    } else {
        assert forall|j: int| 0 <= j < s.len() implies #[trigger] s[j] < bound - 1 by {
            assert(s[j] < bound);
        }
        lemma_distinct_bounded(s, (bound - 1) as nat);
    }
}

/// Walking up from a node of the graph stays among the nodes of the graph.
proof fn lemma_ancestor_in_range(nodes: Seq<SceneNode>, node: usize, steps: nat)
    requires
        node < nodes.len(),
    ensures
        ancestor(nodes, node, steps) < nodes.len(),
    decreases steps,
{
    if steps > 0 {
        lemma_ancestor_in_range(nodes, node, (steps - 1) as nat);
        let below = ancestor(nodes, node, (steps - 1) as nat);
        if has_parent(nodes, below) {
            assert(is_child(nodes, parent_of(nodes, below), below));
        }
    }
}

/// A walk up that has not come to a root after as many steps as there are
/// nodes has come by some node twice: it goes round in a circle.
pub proof fn lemma_no_root_is_a_circle(nodes: Seq<SceneNode>, node: usize)
    requires
        node < nodes.len(),
    ensures
        exists|i: nat, j: nat|
            i < j <= nodes.len() && #[trigger] ancestor(nodes, node, i) == #[trigger] ancestor(
                nodes,
                node,
                j,
            ),
{
    let met = Seq::new(nodes.len() + 1, |k: int| ancestor(nodes, node, k as nat));
    assert forall|k: int| 0 <= k < met.len() implies #[trigger] met[k] < nodes.len() by {
        lemma_ancestor_in_range(nodes, node, k as nat);
    }
    if met.no_duplicates() {
        lemma_distinct_bounded(met, nodes.len());
    }
    let (i, j) = choose|i: int, j: int|
        0 <= i < met.len() && 0 <= j < met.len() && i != j && met[i] == met[j];
    let low = (if i < j { i } else { j }) as nat;
    let high = (if i < j { j } else { i }) as nat;
    assert(ancestor(nodes, node, low) == ancestor(nodes, node, high));
}

/// The nodes that a walk has yet to give: the walks of the nodes put aside in
/// `stack`, the last one first, each no deeper than its entry in `depths`.
spec fn pending(nodes: Seq<SceneNode>, stack: Seq<usize>, depths: Seq<nat>) -> Seq<usize>
    decreases stack.len(),
{
    if stack.len() == 0 || depths.len() != stack.len() {
        Seq::empty()
    } else {
        walk(nodes, stack.last(), depths.last()) + pending(
            nodes,
            stack.drop_last(),
            depths.drop_last(),
        )
    }
}

/// As many entries as `count`, each of them `depth`.
spec fn repeated(depth: nat, count: nat) -> Seq<nat> {
    Seq::new(count, |i: int| depth)
}

/// Putting the children of a node aside leaves their walks to be given
/// before what was put aside earlier.
proof fn lemma_pending_children(
    nodes: Seq<SceneNode>,
    stack: Seq<usize>,
    depths: Seq<nat>,
    siblings: Seq<usize>,
    depth: nat,
)
    requires
        stack.len() == depths.len(),
    ensures
        pending(nodes, stack + siblings, depths + repeated(depth, siblings.len())) == walk_all(
            nodes,
            siblings,
            depth,
        ) + pending(nodes, stack, depths),
    decreases siblings.len(),
{
    let all = stack + siblings;
    let all_depths = depths + repeated(depth, siblings.len());
    if siblings.len() == 0 {
        assert(all =~= stack);
        assert(all_depths =~= depths);
        assert(walk_all(nodes, siblings, depth) + pending(nodes, stack, depths) =~= pending(
            nodes,
            stack,
            depths,
        ));
    } else {
        let fewer = siblings.drop_last();
        assert(all.drop_last() =~= stack + fewer);
        assert(all_depths.drop_last() =~= depths + repeated(depth, fewer.len()));
        assert(all.last() == siblings.last());
        assert(all_depths.last() == depth);
        lemma_pending_children(nodes, stack, depths, fewer, depth);
        let first = walk(nodes, siblings.last(), depth);
        let others = walk_all(nodes, fewer, depth);
        let earlier = pending(nodes, stack, depths);
        assert(pending(nodes, all, all_depths) == first + (others + earlier));
        assert(first + (others + earlier) =~= (first + others) + earlier);
    }
}

/// What holds in the middle of a walk from `root`: `visited` holds the nodes
/// given so far, `stack` those put aside, `depths` how deep the walk may still
/// go below each of them.
#[verifier::opaque]
spec fn walk_state(
    nodes: Seq<SceneNode>,
    parent_table: Seq<usize>,
    root: usize,
    visited: Seq<usize>,
    stack: Seq<usize>,
    depths: Seq<nat>,
) -> bool {
    &&& forall|i: int| 0 <= i < visited.len() ==> #[trigger] visited[i] < nodes.len()
    &&& forall|i: int| 0 <= i < stack.len() ==> #[trigger] stack[i] < nodes.len()
    &&& visited.no_duplicates()
    &&& stack.no_duplicates()
    &&& forall|i: int, j: int|
        0 <= i < visited.len() && 0 <= j < stack.len() ==> #[trigger] visited[i]
            != #[trigger] stack[j]
    &&& forall|i: int|
        0 <= i < visited.len() && parent_table[#[trigger] visited[i] as int] != NO_JOINT
            ==> visited.contains(parent_table[visited[i] as int])
    &&& forall|i: int|
        0 <= i < stack.len() && parent_table[#[trigger] stack[i] as int] != NO_JOINT
            ==> visited.contains(parent_table[stack[i] as int])
    &&& depths.len() == stack.len()
    &&& forall|i: int| 0 <= i < depths.len() ==> #[trigger] depths[i] + visited.len() >= nodes.len()
    &&& visited + pending(nodes, stack, depths) == walk(nodes, root, nodes.len())
}

/// A walk starts with nothing given and the root put aside.
proof fn lemma_walk_start(nodes: Seq<SceneNode>, parent_table: Seq<usize>, root: usize)
    requires
        single_parent(nodes),
        is_parent_table(parent_table, nodes),
        root < nodes.len(),
        !has_parent(nodes, root),
    ensures
        walk_state(
            nodes,
            parent_table,
            root,
            Seq::empty(),
            seq![root],
            seq![nodes.len()],
        ),
{
    reveal(walk_state);
    let visited = Seq::<usize>::empty();
    let stack = seq![root];
    let depths = seq![nodes.len()];
    lemma_table_parent(parent_table, nodes, root);
    assert(stack.drop_last() =~= Seq::<usize>::empty());
    assert(depths.drop_last() =~= Seq::<nat>::empty());
    assert(pending(nodes, stack.drop_last(), depths.drop_last()) =~= Seq::<usize>::empty());
    assert(pending(nodes, stack, depths) =~= walk(nodes, root, nodes.len()));
    assert(visited + pending(nodes, stack, depths) =~= walk(nodes, root, nodes.len()));
}

/// A walk that has put nodes aside has not yet given every node, and the
/// node it gives next is new, with its parent given already.
proof fn lemma_walk_unfinished(
    nodes: Seq<SceneNode>,
    parent_table: Seq<usize>,
    root: usize,
    visited: Seq<usize>,
    stack: Seq<usize>,
    depths: Seq<nat>,
)
    requires
        walk_state(nodes, parent_table, root, visited, stack, depths),
        stack.len() > 0,
    ensures
        visited.len() < nodes.len(),
        depths.len() == stack.len(),
        depths.last() > 0,
        stack.last() < nodes.len(),
        !visited.contains(stack.last()),
        parent_table[stack.last() as int] != NO_JOINT ==> visited.contains(
            parent_table[stack.last() as int],
        ),
{
    reveal(walk_state);
    vstd::seq_lib::lemma_no_dup_in_concat(visited, stack);
    let seen = visited + stack;
    assert forall|i: int| 0 <= i < seen.len() implies #[trigger] seen[i] < nodes.len() by {
        if i < visited.len() {
            assert(seen[i] == visited[i]);
        } else {
            assert(seen[i] == stack[i - visited.len()]);
        }
    }
    lemma_distinct_bounded(seen, nodes.len());
    assert(depths[depths.len() - 1] + visited.len() >= nodes.len());
    let node = stack[stack.len() - 1];
    if visited.contains(node) {
        let w = choose|w: int| 0 <= w < visited.len() && visited[w] == node;
        assert(visited[w] != stack[stack.len() - 1]);
    }
}

/// What a walk has given and what it has yet to give are the whole walk.
proof fn lemma_walk_whole(
    nodes: Seq<SceneNode>,
    parent_table: Seq<usize>,
    root: usize,
    visited: Seq<usize>,
    stack: Seq<usize>,
    depths: Seq<nat>,
)
    requires
        walk_state(nodes, parent_table, root, visited, stack, depths),
    ensures
        visited + pending(nodes, stack, depths) == walk(nodes, root, nodes.len()),
        stack.len() == 0 ==> visited == walk(nodes, root, nodes.len()),
{
    reveal(walk_state);
    if stack.len() == 0 {
        assert(visited + pending(nodes, stack, depths) =~= visited);
    }
}

/// One step of the walk: the node put aside last is given, and its children
/// are put aside in its place.
proof fn lemma_walk_step(
    nodes: Seq<SceneNode>,
    parent_table: Seq<usize>,
    root: usize,
    visited: Seq<usize>,
    stack: Seq<usize>,
    depths: Seq<nat>,
)
    requires
        children_in_range(nodes),
        single_parent(nodes),
        is_parent_table(parent_table, nodes),
        walk_state(nodes, parent_table, root, visited, stack, depths),
        stack.len() > 0,
    ensures
        walk_state(
            nodes,
            parent_table,
            root,
            visited.push(stack.last()),
            stack.drop_last() + nodes[stack.last() as int].children@,
            depths.drop_last() + repeated(
                (depths.last() - 1) as nat,
                nodes[stack.last() as int].children@.len(),
            ),
        ),
{
    reveal(walk_state);
    lemma_walk_unfinished(nodes, parent_table, root, visited, stack, depths);
    let node = stack.last();
    let children = nodes[node as int].children@;
    let rest = stack.drop_last();
    let below = (depths.last() - 1) as nat;
    let visited2 = visited.push(node);
    let stack2 = rest + children;
    let depths2 = depths.drop_last() + repeated(below, children.len());
    assert(stack[stack.len() - 1] == node);
    assert(node < nodes.len());

    // every child has `node` as its parent, and was not met before
    assert forall|k: int| 0 <= k < children.len() implies {
        &&& #[trigger] children[k] < nodes.len()
        &&& parent_table[children[k] as int] == node
        &&& children[k] != node
        &&& !visited.contains(children[k])
        &&& !stack.contains(children[k])
    } by {
        let child = children[k];
        assert(child == nodes[node as int].children@[k]);
        assert(is_child(nodes, node as int, child));
        lemma_table_parent(parent_table, nodes, child);
        assert(parent_table[child as int] == node);
        if visited.contains(child) {
            let i = choose|i: int| 0 <= i < visited.len() && visited[i] == child;
            assert(visited.contains(parent_table[visited[i] as int]));
            let j = choose|j: int| 0 <= j < visited.len() && visited[j] == node;
            assert(visited[j] != stack[stack.len() - 1]);
        }
        if stack.contains(child) {
            let i = choose|i: int| 0 <= i < stack.len() && stack[i] == child;
            assert(visited.contains(parent_table[stack[i] as int]));
            let j = choose|j: int| 0 <= j < visited.len() && visited[j] == node;
            assert(visited[j] != stack[stack.len() - 1]);
        }
    }

    assert forall|i: int| 0 <= i < visited2.len() implies #[trigger] visited2[i] < nodes.len() by {
        if i < visited.len() {
            assert(visited2[i] == visited[i]);
        }
    }
    assert forall|i: int| 0 <= i < stack2.len() implies #[trigger] stack2[i] < nodes.len() by {
        if i < rest.len() {
            assert(stack2[i] == stack[i]);
        } else {
            assert(stack2[i] == children[i - rest.len()]);
        }
    }
    assert(visited2.no_duplicates()) by {
        assert forall|i: int, j: int|
            0 <= i < visited2.len() && 0 <= j < visited2.len() && i != j implies visited2[i]
            != visited2[j] by {
            if i == visited.len() {
                assert(visited[j] != stack[stack.len() - 1]);
            } else if j == visited.len() {
                assert(visited[i] != stack[stack.len() - 1]);
            }
        }
    }
    assert(stack2.no_duplicates()) by {
        assert forall|i: int, j: int|
            0 <= i < stack2.len() && 0 <= j < stack2.len() && i != j implies stack2[i]
            != stack2[j] by {
            let ci = i - rest.len();
            let cj = j - rest.len();
            if i < rest.len() && j < rest.len() {
                assert(stack2[i] == stack[i] && stack2[j] == stack[j]);
            } else if i < rest.len() {
                assert(stack2[i] == stack[i] && stack2[j] == children[cj]);
                assert(!stack.contains(children[cj]));
            } else if j < rest.len() {
                assert(stack2[j] == stack[j] && stack2[i] == children[ci]);
                assert(!stack.contains(children[ci]));
            } else {
                assert(stack2[i] == nodes[node as int].children@[ci]);
                assert(stack2[j] == nodes[node as int].children@[cj]);
            }
        }
    }
    assert forall|i: int, j: int|
        0 <= i < visited2.len() && 0 <= j < stack2.len() implies #[trigger] visited2[i]
        != #[trigger] stack2[j] by {
        let cj = j - rest.len();
        if j < rest.len() {
            assert(stack2[j] == stack[j]);
            if i < visited.len() {
                assert(visited2[i] == visited[i]);
            } else {
                assert(visited2[i] == stack[stack.len() - 1]);
            }
        } else {
            assert(stack2[j] == children[cj]);
            if i < visited.len() {
                assert(visited2[i] == visited[i]);
                assert(!visited.contains(children[cj]));
            }
        }
    }
    assert forall|i: int|
        0 <= i < visited2.len() && parent_table[#[trigger] visited2[i] as int]
            != NO_JOINT implies visited2.contains(parent_table[visited2[i] as int]) by {
        let parent = parent_table[visited2[i] as int];
        if i < visited.len() {
            assert(visited2[i] == visited[i]);
        } else {
            assert(visited2[i] == stack[stack.len() - 1]);
        }
        assert(visited.contains(parent));
        let w = choose|w: int| 0 <= w < visited.len() && visited[w] == parent;
        assert(visited2[w] == parent);
    }
    assert forall|i: int|
        0 <= i < stack2.len() && parent_table[#[trigger] stack2[i] as int]
            != NO_JOINT implies visited2.contains(parent_table[stack2[i] as int]) by {
        let parent = parent_table[stack2[i] as int];
        if i < rest.len() {
            assert(stack2[i] == stack[i]);
            assert(visited.contains(parent));
            let w = choose|w: int| 0 <= w < visited.len() && visited[w] == parent;
            assert(visited2[w] == parent);
        } else {
            assert(stack2[i] == children[i - rest.len()]);
            assert(visited2[visited.len() as int] == node);
        }
    }
    assert forall|i: int| 0 <= i < depths2.len() implies #[trigger] depths2[i] + visited2.len()
        >= nodes.len() by {
        if i < rest.len() {
            assert(depths2[i] == depths[i]);
        } else {
            assert(depths2[i] == below);
            assert(depths[depths.len() - 1] + visited.len() >= nodes.len());
        }
    }
    lemma_pending_children(nodes, rest, depths.drop_last(), children, below);
    let later = pending(nodes, rest, depths.drop_last());
    let under = walk_all(nodes, children, below);
    assert(pending(nodes, stack, depths) == (seq![node] + under) + later);
    assert(visited2 + (under + later) =~= visited + ((seq![node] + under) + later));
}

/// A skeleton read off a scene graph: the joints in the order of their
/// internal ids, and the tables that lead from one numbering to another.
#[derive(Debug)]
pub struct JointLayout {
    /// For each internal id, the node that is this joint.
    pub order: Vec<usize>,
    /// For each internal id, the internal id of the parent joint;
    /// [`NO_JOINT`] for the first.
    pub parents: Vec<usize>,
    /// For each internal id, the joint's place in the skin's list of joints.
    pub skin_indices: Vec<usize>,
    /// For each node, its internal id; [`NO_JOINT`] for a node that is no
    /// joint.
    pub node_to_inner: Vec<usize>,
    /// For each place in the skin's list of joints, the internal id.
    pub joint_to_inner: Vec<usize>,
}

/// Whether the five tables are those of the graph `nodes` with the joints
/// `joints`: `order` lists the joints as the walk from the root meets them,
/// `parents` and `skin_indices` go by the place in `order`, `node_to_inner`
/// by node and `joint_to_inner` by the place in `joints`.
pub open spec fn is_layout(
    nodes: Seq<SceneNode>,
    joints: Seq<usize>,
    order: Seq<usize>,
    parents: Seq<usize>,
    skin_indices: Seq<usize>,
    node_to_inner: Seq<usize>,
    joint_to_inner: Seq<usize>,
) -> bool {
    &&& order == joint_order(nodes, joints)
    &&& order.no_duplicates()
    &&& order.len() == joints.len()
    &&& parents.len() == order.len()
    &&& skin_indices.len() == order.len()
    &&& node_to_inner.len() == nodes.len()
    &&& joint_to_inner.len() == joints.len()
    &&& parents[0] == NO_JOINT
    &&& forall|i: int|
        0 < i < order.len() ==> #[trigger] parents[i] < i && is_child(
            nodes,
            order[parents[i] as int] as int,
            order[i],
        )
    &&& forall|i: int|
        0 <= i < order.len() ==> #[trigger] skin_indices[i] < joints.len()
            && joints[skin_indices[i] as int] == order[i]
    &&& forall|g: int|
        0 <= g < nodes.len() ==> if #[trigger] node_to_inner[g] == NO_JOINT {
            !joints.contains(g as usize)
        } else {
            node_to_inner[g] < order.len() && order[node_to_inner[g] as int] == g
        }
    &&& forall|j: int|
        0 <= j < joints.len() ==> #[trigger] joint_to_inner[j] < order.len()
            && order[joint_to_inner[j] as int] == joints[j]
}

impl JointLayout {
    /// Whether the layout is the one of the graph `nodes` with the joints
    /// `joints`.
    pub open spec fn describes(&self, nodes: Seq<SceneNode>, joints: Seq<usize>) -> bool {
        is_layout(
            nodes,
            joints,
            self.order@,
            self.parents@,
            self.skin_indices@,
            self.node_to_inner@,
            self.joint_to_inner@,
        )
    }
}

/// What the tables hold in the middle of a walk that has given `visited`.
#[verifier::opaque]
spec fn joints_recorded(
    nodes: Seq<SceneNode>,
    joints: Seq<usize>,
    visited: Seq<usize>,
    order: Seq<usize>,
    parents: Seq<usize>,
    skin_indices: Seq<usize>,
    node_to_inner: Seq<usize>,
    joint_to_inner: Seq<usize>,
) -> bool {
    &&& order == visited.filter(is_joint(joints))
    &&& order.len() <= visited.len()
    &&& parents.len() == order.len()
    &&& skin_indices.len() == order.len()
    &&& node_to_inner.len() == nodes.len()
    &&& joint_to_inner.len() == joints.len()
    &&& order.len() > 0 ==> parents[0] == NO_JOINT
    &&& forall|i: int|
        0 < i < order.len() ==> #[trigger] parents[i] < i && is_child(
            nodes,
            order[parents[i] as int] as int,
            order[i],
        )
    &&& forall|i: int|
        0 <= i < order.len() ==> {
            &&& #[trigger] order[i] < nodes.len()
            &&& node_to_inner[order[i] as int] == i
            &&& skin_indices[i] < joints.len()
            &&& joints[skin_indices[i] as int] == order[i]
            &&& visited.contains(order[i])
        }
    &&& forall|g: int|
        0 <= g < nodes.len() ==> if #[trigger] node_to_inner[g] == NO_JOINT {
            !(visited.contains(g as usize) && joints.contains(g as usize))
        } else {
            node_to_inner[g] < order.len() && order[node_to_inner[g] as int] == g
        }
    &&& forall|j: int|
        0 <= j < joints.len() ==> #[trigger] joint_to_inner[j] == node_to_inner[joints[j] as int]
}

/// Before the walk no joint has been met.
proof fn lemma_tables_start(
    nodes: Seq<SceneNode>,
    joints: Seq<usize>,
    node_to_inner: Seq<usize>,
    joint_to_inner: Seq<usize>,
)
    requires
        joints_in_range(nodes, joints),
        node_to_inner.len() == nodes.len(),
        joint_to_inner.len() == joints.len(),
        forall|g: int| 0 <= g < node_to_inner.len() ==> #[trigger] node_to_inner[g] == NO_JOINT,
        forall|j: int| 0 <= j < joint_to_inner.len() ==> #[trigger] joint_to_inner[j] == NO_JOINT,
    ensures
        joints_recorded(
            nodes,
            joints,
            Seq::empty(),
            Seq::empty(),
            Seq::empty(),
            Seq::empty(),
            node_to_inner,
            joint_to_inner,
        ),
{
    reveal(joints_recorded);
    reveal(Seq::filter);
    let visited = Seq::<usize>::empty();
    assert(visited.filter(is_joint(joints)) =~= Seq::<usize>::empty());
    assert forall|j: int| 0 <= j < joints.len() implies #[trigger] joint_to_inner[j]
        == node_to_inner[joints[j] as int] by {
        assert(joints[j] < nodes.len());
    }
}

/// What the tables say in the middle of a walk about one node.
proof fn lemma_tables_read(
    nodes: Seq<SceneNode>,
    joints: Seq<usize>,
    visited: Seq<usize>,
    order: Seq<usize>,
    parents: Seq<usize>,
    skin_indices: Seq<usize>,
    node_to_inner: Seq<usize>,
    joint_to_inner: Seq<usize>,
    node: usize,
)
    requires
        joints_recorded(
            nodes,
            joints,
            visited,
            order,
            parents,
            skin_indices,
            node_to_inner,
            joint_to_inner,
        ),
        node < nodes.len(),
    ensures
        order == visited.filter(is_joint(joints)),
        order.len() <= visited.len(),
        parents.len() == order.len(),
        skin_indices.len() == order.len(),
        node_to_inner.len() == nodes.len(),
        joint_to_inner.len() == joints.len(),
        if node_to_inner[node as int] == NO_JOINT {
            !(visited.contains(node) && joints.contains(node))
        } else {
            node_to_inner[node as int] < order.len() && order[node_to_inner[node as int] as int]
                == node
        },
{
    reveal(joints_recorded);
}

/// A node that is no joint leaves the tables as they are.
proof fn lemma_pass_node(
    nodes: Seq<SceneNode>,
    joints: Seq<usize>,
    visited: Seq<usize>,
    order: Seq<usize>,
    parents: Seq<usize>,
    skin_indices: Seq<usize>,
    node_to_inner: Seq<usize>,
    joint_to_inner: Seq<usize>,
    node: usize,
)
    requires
        joints_recorded(
            nodes,
            joints,
            visited,
            order,
            parents,
            skin_indices,
            node_to_inner,
            joint_to_inner,
        ),
        !joints.contains(node),
    ensures
        joints_recorded(
            nodes,
            joints,
            visited.push(node),
            order,
            parents,
            skin_indices,
            node_to_inner,
            joint_to_inner,
        ),
{
    reveal(joints_recorded);
    let visited2 = visited.push(node);
    visited.lemma_filter_push(node, is_joint(joints));
    assert forall|i: int| 0 <= i < order.len() implies visited2.contains(#[trigger] order[i]) by {
        let w = choose|w: int| 0 <= w < visited.len() && visited[w] == order[i];
        assert(visited2[w] == order[i]);
    }
    assert forall|g: int| 0 <= g < nodes.len() && #[trigger] node_to_inner[g] == NO_JOINT implies !(
    visited2.contains(g as usize) && joints.contains(g as usize)) by {
        let gu = g as usize;
        if visited2.contains(gu) && joints.contains(gu) {
            let w = choose|w: int| 0 <= w < visited2.len() && visited2[w] == gu;
            assert(visited[w] == gu);
        }
    }
}

/// A joint met on the walk takes the next internal id.
proof fn lemma_record_joint(
    nodes: Seq<SceneNode>,
    joints: Seq<usize>,
    visited: Seq<usize>,
    order: Seq<usize>,
    parents: Seq<usize>,
    skin_indices: Seq<usize>,
    node_to_inner: Seq<usize>,
    joint_to_inner: Seq<usize>,
    node: usize,
    skin_index: usize,
    parent: usize,
)
    requires
        joints_recorded(
            nodes,
            joints,
            visited,
            order,
            parents,
            skin_indices,
            node_to_inner,
            joint_to_inner,
        ),
        joints.no_duplicates(),
        joints_in_range(nodes, joints),
        nodes.len() <= usize::MAX,
        node < nodes.len(),
        !visited.contains(node),
        skin_index < joints.len(),
        joints[skin_index as int] == node,
        order.len() < NO_JOINT,
        order.len() == 0 ==> parent == NO_JOINT,
        order.len() > 0 ==> parent < order.len() && is_child(
            nodes,
            order[parent as int] as int,
            node,
        ),
    ensures
        joints_recorded(
            nodes,
            joints,
            visited.push(node),
            order.push(node),
            parents.push(parent),
            skin_indices.push(skin_index),
            node_to_inner.update(node as int, order.len() as usize),
            joint_to_inner.update(skin_index as int, order.len() as usize),
        ),
{
    reveal(joints_recorded);
    let visited2 = visited.push(node);
    let order2 = order.push(node);
    let parents2 = parents.push(parent);
    let skin2 = skin_indices.push(skin_index);
    let inner = order.len() as usize;
    let node_to_inner2 = node_to_inner.update(node as int, inner);
    let joint_to_inner2 = joint_to_inner.update(skin_index as int, inner);
    assert(joints.contains(node));
    visited.lemma_filter_push(node, is_joint(joints));
    assert forall|i: int| 0 < i < order2.len() implies #[trigger] parents2[i] < i && is_child(
        nodes,
        order2[parents2[i] as int] as int,
        order2[i],
    ) by {
        if i < order.len() {
            assert(parents2[i] == parents[i]);
        }
    }
    assert forall|i: int| 0 <= i < order2.len() implies {
        &&& #[trigger] order2[i] < nodes.len()
        &&& node_to_inner2[order2[i] as int] == i
        &&& skin2[i] < joints.len()
        &&& joints[skin2[i] as int] == order2[i]
        &&& visited2.contains(order2[i])
    } by {
        if i < order.len() {
            assert(order2[i] == order[i]);
            assert(visited.contains(order[i]));
            let w = choose|w: int| 0 <= w < visited.len() && visited[w] == order[i];
            assert(visited2[w] == order[i]);
        } else {
            assert(visited2[visited.len() as int] == node);
        }
    }
    assert forall|g: int| 0 <= g < nodes.len() implies if #[trigger] node_to_inner2[g] == NO_JOINT {
        !(visited2.contains(g as usize) && joints.contains(g as usize))
    } else {
        node_to_inner2[g] < order2.len() && order2[node_to_inner2[g] as int] == g
    } by {
        let gu = g as usize;
        if g != node {
            assert(node_to_inner2[g] == node_to_inner[g]);
            if node_to_inner[g] == NO_JOINT {
                if visited2.contains(gu) && joints.contains(gu) {
                    let w = choose|w: int| 0 <= w < visited2.len() && visited2[w] == gu;
                    assert(visited[w] == gu);
                }
            } else {
                assert(order2[node_to_inner[g] as int] == order[node_to_inner[g] as int]);
            }
        }
    }
    assert forall|j: int| 0 <= j < joints.len() implies #[trigger] joint_to_inner2[j]
        == node_to_inner2[joints[j] as int] by {
        if j == skin_index {
        } else {
            assert(joints[j] != joints[skin_index as int]);
        }
    }
}

/// A joint without a joint above it, met after another joint, is a detached
/// joint of the whole walk.
proof fn lemma_detached_found(
    nodes: Seq<SceneNode>,
    joints: Seq<usize>,
    visited: Seq<usize>,
    later: Seq<usize>,
    node: usize,
)
    requires
        walk(nodes, root_of(nodes, joints[0]), nodes.len()) == visited.push(node) + later,
        visited.filter(is_joint(joints)).len() > 0,
        joints.contains(node),
        forall|p: int| is_child(nodes, p, node) ==> !joints.contains(p as usize),
    ensures
        exists|i: int|
            0 < i < joint_order(nodes, joints).len() && is_detached(
                nodes,
                joints,
                joint_order(nodes, joints),
                i,
            ),
{
    let met = visited.filter(is_joint(joints));
    let order = joint_order(nodes, joints);
    Seq::filter_distributes_over_add(visited.push(node), later, is_joint(joints));
    visited.lemma_filter_push(node, is_joint(joints));
    assert(order == met.push(node) + later.filter(is_joint(joints)));
    let i = met.len() as int;
    assert(order[i] == node);
    assert(is_detached(nodes, joints, order, i));
}

/// Where every joint after the first has a joint above it, no joint is
/// detached.
proof fn lemma_none_detached(
    nodes: Seq<SceneNode>,
    joints: Seq<usize>,
    visited: Seq<usize>,
    order: Seq<usize>,
    parents: Seq<usize>,
    skin_indices: Seq<usize>,
    node_to_inner: Seq<usize>,
    joint_to_inner: Seq<usize>,
)
    requires
        joints_recorded(
            nodes,
            joints,
            visited,
            order,
            parents,
            skin_indices,
            node_to_inner,
            joint_to_inner,
        ),
    ensures
        !exists|i: int| 0 < i < order.len() && is_detached(nodes, joints, order, i),
{
    reveal(joints_recorded);
    assert forall|i: int| 0 < i < order.len() implies !is_detached(nodes, joints, order, i) by {
        let above = parents[i] as int;
        let p = order[above] as int;
        assert(is_child(nodes, p, order[i]));
        assert(joints[skin_indices[above] as int] == order[above]);
        assert(joints.contains(p as usize));
    }
}

/// The tables at the end of a walk that has met every joint are the layout.
proof fn lemma_layout_complete(
    nodes: Seq<SceneNode>,
    joints: Seq<usize>,
    order: Seq<usize>,
    parents: Seq<usize>,
    skin_indices: Seq<usize>,
    node_to_inner: Seq<usize>,
    joint_to_inner: Seq<usize>,
)
    requires
        joints.len() > 0,
        joints.no_duplicates(),
        joints_in_range(nodes, joints),
        joints_recorded(
            nodes,
            joints,
            walk(nodes, root_of(nodes, joints[0]), nodes.len()),
            order,
            parents,
            skin_indices,
            node_to_inner,
            joint_to_inner,
        ),
        forall|j: int| 0 <= j < joints.len() ==> #[trigger] joint_to_inner[j] != NO_JOINT,
    ensures
        is_layout(nodes, joints, order, parents, skin_indices, node_to_inner, joint_to_inner),
        forall|j: int| 0 <= j < joints.len() ==> order.contains(#[trigger] joints[j]),
{
    reveal(joints_recorded);
    let visited = walk(nodes, root_of(nodes, joints[0]), nodes.len());
    assert forall|j: int| 0 <= j < joints.len() implies #[trigger] joint_to_inner[j] < order.len()
        && order[joint_to_inner[j] as int] == joints[j] by {
        assert(joints[j] < nodes.len());
        assert(joint_to_inner[j] == node_to_inner[joints[j] as int]);
    }
    assert forall|j: int| 0 <= j < joints.len() implies order.contains(#[trigger] joints[j]) by {
        assert(order[joint_to_inner[j] as int] == joints[j]);
    }
    assert(order.no_duplicates()) by {
        assert forall|i: int, k: int|
            0 <= i < order.len() && 0 <= k < order.len() && i != k implies order[i]
            != order[k] by {
            assert(node_to_inner[order[i] as int] == i);
            assert(node_to_inner[order[k] as int] == k);
        }
    }
    assert forall|g: int| 0 <= g < nodes.len() && #[trigger] node_to_inner[g]
        == NO_JOINT implies !joints.contains(g as usize) by {
        let gu = g as usize;
        if joints.contains(gu) {
            let j = choose|j: int| 0 <= j < joints.len() && joints[j] == gu;
            assert(joint_to_inner[j] != NO_JOINT);
        }
    }
    assert(skin_indices.no_duplicates()) by {
        assert forall|i: int, k: int|
            0 <= i < order.len() && 0 <= k < order.len() && i != k implies skin_indices[i]
            != skin_indices[k] by {
            assert(joints[skin_indices[i] as int] == order[i]);
            assert(joints[skin_indices[k] as int] == order[k]);
        }
    }
    assert forall|i: int| 0 <= i < skin_indices.len() implies #[trigger] skin_indices[i]
        < joints.len() by {
        assert(order[i] < nodes.len());
    }
    lemma_distinct_bounded(skin_indices, joints.len());
    assert(joint_to_inner.no_duplicates()) by {
        assert forall|j: int, k: int|
            0 <= j < joints.len() && 0 <= k < joints.len() && j != k implies joint_to_inner[j]
            != joint_to_inner[k] by {
            assert(order[joint_to_inner[j] as int] == joints[j]);
            assert(order[joint_to_inner[k] as int] == joints[k]);
        }
    }
    lemma_distinct_bounded(joint_to_inner, order.len());
}

/// Puts the children of a node aside, the first child first.
fn push_children(stack: &mut Vec<usize>, children: &Vec<usize>)
    ensures
        final(stack)@ == old(stack)@ + children@,
{
    let ghost rest = stack@;
    let mut k: usize = 0;
    while k < children.len()
        invariant
            k <= children.len(),
            stack@ == rest + children@.take(k as int),
        decreases children.len() - k,
    {
        stack.push(children[k]);
        proof {
            assert(children@.take(k + 1) =~= children@.take(k as int).push(children@[k as int]));
            assert(stack@ =~= rest + children@.take(k + 1));
        }
        k += 1;
    }
    assert(children@.take(k as int) =~= children@);
}

/// Whether every entry of the table holds an internal id.
fn all_reached(joint_to_inner: &Vec<usize>) -> (r: bool)
    ensures
        r <==> forall|j: int|
            0 <= j < joint_to_inner@.len() ==> #[trigger] joint_to_inner@[j] != NO_JOINT,
{
    let mut j: usize = 0;
    while j < joint_to_inner.len()
        invariant
            j <= joint_to_inner@.len(),
            forall|i: int| 0 <= i < j ==> #[trigger] joint_to_inner@[i] != NO_JOINT,
        decreases joint_to_inner@.len() - j,
    {
        if joint_to_inner[j] == NO_JOINT {
            return false;
        }
        j += 1;
    }
    true
}

/// Where an entry of the table holds no internal id, a joint was not met.
proof fn lemma_joint_missed(
    nodes: Seq<SceneNode>,
    joints: Seq<usize>,
    visited: Seq<usize>,
    order: Seq<usize>,
    parents: Seq<usize>,
    skin_indices: Seq<usize>,
    node_to_inner: Seq<usize>,
    joint_to_inner: Seq<usize>,
)
    requires
        joints_in_range(nodes, joints),
        joints_recorded(
            nodes,
            joints,
            visited,
            order,
            parents,
            skin_indices,
            node_to_inner,
            joint_to_inner,
        ),
        !forall|j: int| 0 <= j < joint_to_inner.len() ==> #[trigger] joint_to_inner[j] != NO_JOINT,
    ensures
        exists|j: int| 0 <= j < joints.len() && !order.contains(joints[j]),
{
    reveal(joints_recorded);
    let j = choose|j: int| 0 <= j < joint_to_inner.len() && joint_to_inner[j] == NO_JOINT;
    let joint = joints[j];
    assert(joint < nodes.len());
    assert(node_to_inner[joint as int] == NO_JOINT);
    if order.contains(joint) {
        let i = choose|i: int| 0 <= i < order.len() && order[i] == joint;
        assert(node_to_inner[order[i] as int] == i);
    }
}

fn walk_joints(
    all_nodes: &[SceneNode],
    node_ids: &[usize],
    joint_table: &Vec<usize>,
    parent_table: &Vec<usize>,
    root: usize,
) -> (r: Result<JointLayout, HierarchyError>)
    requires
        node_ids@.len() > 0,
        joints_in_range(all_nodes@, node_ids@),
        node_ids@.no_duplicates(),
        children_in_range(all_nodes@),
        single_parent(all_nodes@),
        is_joint_table(joint_table@, all_nodes@, node_ids@),
        is_parent_table(parent_table@, all_nodes@),
        root == root_of(all_nodes@, node_ids@[0]),
        root < all_nodes.len(),
        !has_parent(all_nodes@, root),
    ensures
        match r {
            Ok(layout) => hierarchy_error(all_nodes@, node_ids@) is None && layout.describes(
                all_nodes@,
                node_ids@,
            ),
            Err(e) => hierarchy_error(all_nodes@, node_ids@) == Some(e),
        },
{
    let n: usize = all_nodes.len();
    let m: usize = node_ids.len();
    let ghost nodes = all_nodes@;
    let ghost joints = node_ids@;
    let mut stack: Vec<usize> = Vec::new();
    stack.push(root);
    let mut order: Vec<usize> = Vec::new();
    let mut parents: Vec<usize> = Vec::new();
    let mut skin_indices: Vec<usize> = Vec::new();
    let mut node_to_inner: Vec<usize> = vec![NO_JOINT; n];
    let mut joint_to_inner: Vec<usize> = vec![NO_JOINT; m];
    let ghost mut visited: Seq<usize> = Seq::empty();
    let ghost mut depths: Seq<nat> = seq![n as nat];
    proof {
        assert(stack@ =~= seq![root]);
        assert(order@ =~= Seq::<usize>::empty());
        assert(parents@ =~= Seq::<usize>::empty());
        assert(skin_indices@ =~= Seq::<usize>::empty());
        lemma_walk_start(nodes, parent_table@, root);
        lemma_tables_start(nodes, joints, node_to_inner@, joint_to_inner@);
    }
    while stack.len() > 0
        invariant
            n == all_nodes.len(),
            m == node_ids.len(),
            nodes == all_nodes@,
            joints == node_ids@,
            joints.len() > 0,
            joints_in_range(nodes, joints),
            joints.no_duplicates(),
            children_in_range(nodes),
            single_parent(nodes),
            is_joint_table(joint_table@, nodes, joints),
            is_parent_table(parent_table@, nodes),
            root == root_of(nodes, joints[0]),
            !has_parent(nodes, root),
            walk_state(nodes, parent_table@, root, visited, stack@, depths),
            joints_recorded(
                nodes,
                joints,
                visited,
                order@,
                parents@,
                skin_indices@,
                node_to_inner@,
                joint_to_inner@,
            ),
        decreases n - visited.len(),
    {
        proof {
            lemma_walk_unfinished(nodes, parent_table@, root, visited, stack@, depths);
            lemma_walk_step(nodes, parent_table@, root, visited, stack@, depths);
        }
        let ghost below = (depths.last() - 1) as nat;
        let node: usize = stack.pop().unwrap();
        let children = &all_nodes[node].children;
        push_children(&mut stack, children);
        proof {
            depths = depths.drop_last() + repeated(below, children@.len());
            lemma_tables_read(
                nodes,
                joints,
                visited,
                order@,
                parents@,
                skin_indices@,
                node_to_inner@,
                joint_to_inner@,
                node,
            );
            lemma_table_parent(parent_table@, nodes, node);
        }
        let joint_id: usize = joint_table[node];
        if joint_id != NO_JOINT {
            let inner_id: usize = order.len();
            let parent_node: usize = parent_table[node];
            let parent_inner: usize = if parent_node != NO_JOINT {
                proof {
                    lemma_tables_read(
                        nodes,
                        joints,
                        visited,
                        order@,
                        parents@,
                        skin_indices@,
                        node_to_inner@,
                        joint_to_inner@,
                        parent_node,
                    );
                }
                node_to_inner[parent_node]
            } else {
                NO_JOINT
            };
            if inner_id > 0 && parent_inner == NO_JOINT {
                proof {
                    assert forall|p: int| is_child(nodes, p, node) implies !joints.contains(
                        p as usize,
                    ) by {
                        lemma_parent_unique(nodes, p, parent_table@[node as int] as int, node);
                    }
                    lemma_walk_whole(
                        nodes,
                        parent_table@,
                        root,
                        visited.push(node),
                        stack@,
                        depths,
                    );
                    lemma_detached_found(
                        nodes,
                        joints,
                        visited,
                        pending(nodes, stack@, depths),
                        node,
                    );
                }
                return Err(HierarchyError::DetachedJoint);
            }
            proof {
                lemma_record_joint(
                    nodes,
                    joints,
                    visited,
                    order@,
                    parents@,
                    skin_indices@,
                    node_to_inner@,
                    joint_to_inner@,
                    node,
                    joint_id,
                    parent_inner,
                );
            }
            joint_to_inner[joint_id] = inner_id;
            node_to_inner[node] = inner_id;
            parents.push(parent_inner);
            order.push(node);
            skin_indices.push(joint_id);
        } else {
            proof {
                lemma_pass_node(
                    nodes,
                    joints,
                    visited,
                    order@,
                    parents@,
                    skin_indices@,
                    node_to_inner@,
                    joint_to_inner@,
                    node,
                );
            }
        }
        proof {
            visited = visited.push(node);
        }
    }
    proof {
        lemma_walk_whole(nodes, parent_table@, root, visited, stack@, depths);
        lemma_tables_read(
            nodes,
            joints,
            visited,
            order@,
            parents@,
            skin_indices@,
            node_to_inner@,
            joint_to_inner@,
            root,
        );
        lemma_none_detached(
            nodes,
            joints,
            visited,
            order@,
            parents@,
            skin_indices@,
            node_to_inner@,
            joint_to_inner@,
        );
    }
    if !all_reached(&joint_to_inner) {
        proof {
            lemma_joint_missed(
                nodes,
                joints,
                visited,
                order@,
                parents@,
                skin_indices@,
                node_to_inner@,
                joint_to_inner@,
            );
        }
        return Err(HierarchyError::UnreachableJoint);
    }
    proof {
        lemma_layout_complete(
            nodes,
            joints,
            order@,
            parents@,
            skin_indices@,
            node_to_inner@,
            joint_to_inner@,
        );
    }
    Ok(JointLayout { order, parents, skin_indices, node_to_inner, joint_to_inner })
}

/// Reads the skeleton off a scene graph: finds the root above the first
/// joint, walks the tree below it and numbers the joints as it meets them.
pub fn flatten(all_nodes: &[SceneNode], node_ids: &[usize]) -> (r: Result<
    JointLayout,
    HierarchyError,
>)
    ensures
        match r {
            Ok(layout) => hierarchy_error(all_nodes@, node_ids@) is None && layout.describes(
                all_nodes@,
                node_ids@,
            ),
            Err(e) => hierarchy_error(all_nodes@, node_ids@) == Some(e),
        },
{
    if node_ids.len() == 0 {
        return Err(HierarchyError::NoJoints);
    }
    let joint_table = match index_joints(all_nodes, node_ids) {
        Ok(table) => table,
        Err(e) => {
            return Err(e);
        },
    };
    let parent_table = match record_parents(all_nodes) {
        Ok(table) => table,
        Err(e) => {
            return Err(e);
        },
    };
    let root = match find_root(all_nodes, &parent_table, node_ids[0]) {
        Some(root) => root,
        None => {
            return Err(HierarchyError::NoRoot);
        },
    };
    walk_joints(all_nodes, node_ids, &joint_table, &parent_table, root)
}

} // verus!
