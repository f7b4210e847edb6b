//! The joints of skeletons and their parents.

use vstd::prelude::*;

use crate::binding::joint_index;
use crate::document::DocumentView;
use crate::element::{ElementView, NodeView};
use crate::number::pose_cells;
use crate::skeleton::{depths, inverse_bind_pose, is_joint, joints_among, last_parent};
use crate::skeleton::{parent_stack, trimmed};
use crate::skin::{BindDataView, JointIndex, ROOT_JOINT_PARENT_INDEX};
use crate::traversal::{pre_order, pre_order_nodes};

verus! {

/// A skeleton has one joint and one pose for each joint element, in document
/// order: the joint is named by the id of the element and has the inverse bind
/// pose of that name, the pose is the matrix of the element.
pub proof fn law_skeleton_follows_its_elements(doc: DocumentView, root: ElementView, data: BindDataView)
    requires
        doc.skeleton(root, data) matches Ok(Some(_)),
    ensures
        ({
            let skeleton = doc.skeleton(root, data)->Ok_0->0;
            let elements = joints_among(pre_order(root, 0));
            &&& skeleton.joints.len() == elements.len()
            &&& skeleton.bind_poses.len() == elements.len()
            &&& forall|k: int|
                0 <= k < elements.len() ==> {
                    let e = elements[k].0;
                    let joint = #[trigger] skeleton.joints[k];
                    &&& e.attribute("id"@) == Some(joint.name)
                    &&& joint.inverse_bind_pose == inverse_bind_pose(data, joint.name)
                    &&& joint.parent_index == last_parent(depths(elements.take(k + 1)))
                    &&& e.element("matrix"@, doc.root.ns) is Some
                    &&& doc.numbers_in(e.element("matrix"@, doc.root.ns)->0) is Some
                    &&& skeleton.bind_poses[k] == pose_cells(
                        doc.numbers_in(e.element("matrix"@, doc.root.ns)->0)->0,
                    )
                }
        }),
{
    lemma_skeleton_of(doc, joints_among(pre_order(root, 0)), data);
}

proof fn lemma_skeleton_of(doc: DocumentView, elements: Seq<(ElementView, nat)>, data: BindDataView)
    requires
        doc.skeleton_of(elements, data) matches Ok(Some(_)),
    ensures
        ({
            let skeleton = doc.skeleton_of(elements, data)->Ok_0->0;
            &&& skeleton.joints.len() == elements.len()
            &&& skeleton.bind_poses.len() == elements.len()
            &&& forall|k: int|
                0 <= k < elements.len() ==> {
                    let e = elements[k].0;
                    let joint = #[trigger] skeleton.joints[k];
                    &&& e.attribute("id"@) == Some(joint.name)
                    &&& joint.inverse_bind_pose == inverse_bind_pose(data, joint.name)
                    &&& joint.parent_index == last_parent(depths(elements.take(k + 1)))
                    &&& e.element("matrix"@, doc.root.ns) is Some
                    &&& doc.numbers_in(e.element("matrix"@, doc.root.ns)->0) is Some
                    &&& skeleton.bind_poses[k] == pose_cells(
                        doc.numbers_in(e.element("matrix"@, doc.root.ns)->0)->0,
                    )
                }
        }),
    decreases elements.len(),
{
    if elements.len() > 0 {
        let shorter = elements.drop_last();
        lemma_skeleton_of(doc, shorter, data);
        let before = doc.skeleton_of(shorter, data)->Ok_0->0;
        let skeleton = doc.skeleton_of(elements, data)->Ok_0->0;
        assert(elements.take(elements.len() as int) =~= elements);
        assert forall|k: int| 0 <= k < elements.len() implies {
            let e = elements[k].0;
            let joint = #[trigger] skeleton.joints[k];
            &&& e.attribute("id"@) == Some(joint.name)
            &&& joint.inverse_bind_pose == inverse_bind_pose(data, joint.name)
            &&& joint.parent_index == last_parent(depths(elements.take(k + 1)))
            &&& e.element("matrix"@, doc.root.ns) is Some
            &&& doc.numbers_in(e.element("matrix"@, doc.root.ns)->0) is Some
            &&& skeleton.bind_poses[k] == pose_cells(
                doc.numbers_in(e.element("matrix"@, doc.root.ns)->0)->0,
            )
        } by {
            if k < shorter.len() {
                assert(skeleton.joints[k] == before.joints[k]);
                assert(skeleton.bind_poses[k] == before.bind_poses[k]);
                assert(shorter.take(k + 1) =~= elements.take(k + 1));
            }
        }
    }
}

/// The stack begins with the mark of the root; each other entry is the index of
/// a joint before.
proof fn lemma_stack_entries(depths: Seq<nat>)
    ensures
        parent_stack(depths).len() > 0,
        parent_stack(depths)[0] == ROOT_JOINT_PARENT_INDEX,
        depths.len() > 0 ==> parent_stack(depths).len() > 1,
        forall|i: int|
            0 < i < parent_stack(depths).len() ==> is_joint_before(
                #[trigger] parent_stack(depths)[i],
                depths.len() as int,
            ),
    decreases depths.len(),
{
    if depths.len() > 0 {
        lemma_stack_entries(depths.drop_last());
        let before = parent_stack(depths.drop_last());
        let kept = trimmed(before, depths.last());
        let stack = parent_stack(depths);
        assert forall|i: int| 0 < i < stack.len() implies is_joint_before(
            #[trigger] stack[i],
            depths.len() as int,
        ) by {
            if i < kept.len() {
                assert(stack[i] == before[i]);
                assert(is_joint_before(before[i], depths.len() - 1));
            } else {
                assert(stack[i] == joint_index(depths.len() - 1));
            }
        }
    }
}

/// Whether an index is that of one of the joints before joint `k`.
pub open spec fn is_joint_before(index: JointIndex, k: int) -> bool {
    exists|p: int| 0 <= p < k && #[trigger] joint_index(p) == index
}

/// A walk over nodes stays at their depth or below.
proof fn lemma_nodes_stay_below(nodes: Seq<NodeView>, depth: nat)
    ensures
        forall|i: int|
            0 <= i < pre_order_nodes(nodes, depth).len() ==> (#[trigger] pre_order_nodes(
                nodes,
                depth,
            )[i]).1 >= depth,
    decreases nodes,
{
    if nodes.len() > 0 {
        let before = pre_order_nodes(nodes.drop_last(), depth);
        let all = pre_order_nodes(nodes, depth);
        lemma_nodes_stay_below(nodes.drop_last(), depth);
        match nodes.last() {
            NodeView::Element(e) => {
                lemma_nodes_stay_below(e.children, depth + 1);
                let last = pre_order(e, depth);
                let below = pre_order_nodes(e.children, depth + 1);
                assert forall|i: int| 0 <= i < all.len() implies (#[trigger] all[i]).1 >= depth by {
                    if i < before.len() {
                        assert(all[i] == before[i]);
                    } else if i > before.len() {
                        assert(all[i] == below[i - before.len() - 1]);
                    }
                }
            },
            _ => {
                assert(all =~= before);
            },
        }
    }
}

/// The joints of a walk are some of its elements.
proof fn lemma_joints_stay_below(all: Seq<(ElementView, nat)>, depth: nat)
    requires
        forall|i: int| 0 <= i < all.len() ==> (#[trigger] all[i]).1 >= depth,
    ensures
        forall|i: int|
            0 <= i < joints_among(all).len() ==> (#[trigger] joints_among(all)[i]).1 >= depth,
    decreases all.len(),
{
    if all.len() > 0 {
        let shorter = all.drop_last();
        let before = joints_among(shorter);
        let joints = joints_among(all);
        assert forall|i: int| 0 <= i < shorter.len() implies (#[trigger] shorter[i]).1 >= depth by {
            assert(all[i].1 >= depth);
        }
        lemma_joints_stay_below(shorter, depth);
        assert(all[all.len() - 1].1 >= depth);
        assert forall|i: int| 0 <= i < joints.len() implies (#[trigger] joints[i]).1 >= depth by {
            if i < before.len() {
                assert(joints[i] == before[i]);
            }
        }
    }
}

/// Of the joints of a skeleton, only the first can be at depth zero.
proof fn lemma_later_joints_are_below(root: ElementView, k: int)
    requires
        0 < k < joints_among(pre_order(root, 0)).len(),
    ensures
        joints_among(pre_order(root, 0))[k].1 > 0,
{
    let head = seq![(root, 0nat)];
    let rest = pre_order_nodes(root.children, 1);
    lemma_joints_among_adds(head, rest);
    lemma_nodes_stay_below(root.children, 1);
    lemma_joints_stay_below(rest, 1);
    reveal_with_fuel(joints_among, 2);
    assert(head.drop_last() =~= Seq::empty());
    let first = joints_among(head);
    assert(first.len() <= 1);
    assert(joints_among(pre_order(root, 0))[k] == joints_among(rest)[k - first.len()]);
}

/// The first joint of a skeleton has no parent. Any other has one that comes
/// before it; up to the joint with the number 255 the parent has a smaller number,
/// so that none of them bears the mark of the root.
pub proof fn law_parents_come_first(doc: DocumentView, root: ElementView, data: BindDataView, k: int)
    requires
        doc.skeleton(root, data) matches Ok(Some(_)),
        0 <= k < doc.skeleton(root, data)->Ok_0->0.joints.len(),
    ensures
        ({
            let parent = doc.skeleton(root, data)->Ok_0->0.joints[k].parent_index;
            &&& k == 0 ==> parent == ROOT_JOINT_PARENT_INDEX
            &&& k > 0 ==> is_joint_before(parent, k)
            &&& 0 < k <= 255 ==> parent < k && parent != ROOT_JOINT_PARENT_INDEX
        }),
{
    let elements = joints_among(pre_order(root, 0));
    law_skeleton_follows_its_elements(doc, root, data);
    let joint = doc.skeleton(root, data)->Ok_0->0.joints[k];
    let upto = depths(elements.take(k + 1));
    let before = parent_stack(upto.drop_last());
    lemma_stack_entries(upto.drop_last());
    let kept = trimmed(before, upto.last());
    assert(joint.parent_index == before[kept.len() - 1]);
    if k > 0 {
        lemma_later_joints_are_below(root, k);
        assert(upto.last() == elements[k].1);
        assert(kept.len() > 1);
        assert(is_joint_before(before[kept.len() - 1], k));
    } else {
        assert(upto.drop_last() =~= Seq::<nat>::empty());
    }
}

/// Whether joints at these depths skip no level: the first is at depth zero, and
/// none is more than one level below the one before it.
pub open spec fn skips_no_level(depths: Seq<nat>) -> bool {
    &&& depths.len() > 0 ==> depths[0] == 0
    &&& forall|i: int| 0 < i < depths.len() ==> #[trigger] depths[i] <= depths[i - 1] + 1
}

/// Whether joint `p` encloses joint `k`: it is the last one before it that is one
/// level up, with none as far up in between.
pub open spec fn encloses(depths: Seq<nat>, p: int, k: int) -> bool {
    &&& 0 <= p < k < depths.len()
    &&& depths[p] + 1 == depths[k]
    &&& forall|j: int| p < j < k ==> #[trigger] depths[j] >= depths[k]
}

/// Whether `p` is the last of the given depths that is `d`, with only larger
/// ones after it.
spec fn is_open_at(depths: Seq<nat>, d: nat, p: int) -> bool {
    &&& 0 <= p < depths.len()
    &&& depths[p] == d
    &&& forall|j: int| p < j < depths.len() ==> #[trigger] depths[j] > d
}

proof fn lemma_shorter_skips_no_level(depths: Seq<nat>)
    requires
        skips_no_level(depths),
        depths.len() > 0,
    ensures
        skips_no_level(depths.drop_last()),
{
    let shorter = depths.drop_last();
    assert forall|i: int| 0 < i < shorter.len() implies #[trigger] shorter[i] <= shorter[i - 1]
        + 1 by {
        assert(depths[i] <= depths[i - 1] + 1);
    }
}

/// Where no level is skipped, the stack holds the root's mark and then, for each
/// depth down to the last one, the last joint at that depth.
proof fn lemma_stack_without_gaps(depths: Seq<nat>)
    requires
        skips_no_level(depths),
    ensures
        parent_stack(depths).len() == (if depths.len() == 0 {
            1
        } else {
            depths.last() + 2
        }),
        forall|d: nat, p: int| #[trigger]
            is_open_at(depths, d, p) ==> d + 1 < parent_stack(depths).len() && parent_stack(
                depths,
            )[d as int + 1] == joint_index(p),
    decreases depths.len(),
{
    if depths.len() > 0 {
        let shorter = depths.drop_last();
        lemma_shorter_skips_no_level(depths);
        lemma_stack_without_gaps(shorter);
        let before = parent_stack(shorter);
        let last = depths.last();
        let kept = trimmed(before, last);
        let stack = parent_stack(depths);
        let n = depths.len() - 1;
        if shorter.len() > 0 {
            assert(depths[n] <= depths[n - 1] + 1);
        }
        assert(kept.len() == last + 1);
        assert forall|d: nat, p: int| #[trigger] is_open_at(depths, d, p) implies d + 1
            < stack.len() && stack[d as int + 1] == joint_index(p) by {
            if p < n {
                assert(depths[n] > d);
                assert forall|j: int| p < j < shorter.len() implies #[trigger] shorter[j] > d by {
                    assert(depths[j] > d);
                }
                assert(is_open_at(shorter, d, p));
                assert(stack[d as int + 1] == before[d as int + 1]);
            }
        }
    }
}

/// Where no level is skipped, each depth down to the last one has a last joint.
proof fn lemma_open_joint(depths: Seq<nat>, d: nat) -> (p: int)
    requires
        skips_no_level(depths),
        depths.len() > 0,
        d <= depths.last(),
    ensures
        is_open_at(depths, d, p),
    decreases depths.len(),
{
    let n = depths.len() - 1;
    if depths.last() == d {
        n
    } else {
        let shorter = depths.drop_last();
        lemma_shorter_skips_no_level(depths);
        assert(n > 0);
        assert(depths[n] <= depths[n - 1] + 1);
        let p = lemma_open_joint(shorter, d);
        assert forall|j: int| p < j < depths.len() implies #[trigger] depths[j] > d by {
            if j < n {
                assert(shorter[j] > d);
            }
        }
        p
    }
}

/// Whether neither the element nor any below it is a joint.
pub open spec fn without_joints(e: ElementView) -> bool
    decreases e,
{
    !is_joint(e) && nodes_without_joints(e.children)
}

/// Whether no element among the nodes or below them is a joint.
pub open spec fn nodes_without_joints(nodes: Seq<NodeView>) -> bool
    decreases nodes,
{
    nodes.len() == 0 || (nodes_without_joints(nodes.drop_last()) && match nodes.last() {
        NodeView::Element(e) => without_joints(e),
        _ => true,
    })
}

/// Whether the element is a joint and every joint below it lies directly within
/// another joint.
pub open spec fn joints_nest(e: ElementView) -> bool
    decreases e,
{
    is_joint(e) && nodes_nest(e.children)
}

/// Whether each of the nodes has nested joints or none.
pub open spec fn nodes_nest(nodes: Seq<NodeView>) -> bool
    decreases nodes,
{
    nodes.len() == 0 || (nodes_nest(nodes.drop_last()) && match nodes.last() {
        NodeView::Element(e) => joints_nest(e) || without_joints(e),
        _ => true,
    })
}

pub(crate) proof fn lemma_joints_among_adds(a: Seq<(ElementView, nat)>, b: Seq<(ElementView, nat)>)
    ensures
        joints_among(a + b) == joints_among(a) + joints_among(b),
    decreases b.len(),
{
    if b.len() == 0 {
        assert(a + b =~= a);
        assert(joints_among(a) + joints_among(b) =~= joints_among(a));
    } else {
        lemma_joints_among_adds(a, b.drop_last());
        assert((a + b).drop_last() =~= a + b.drop_last());
        assert((a + b).last() == b.last());
        assert(joints_among(a + b) =~= joints_among(a) + joints_among(b));
    }
}

proof fn lemma_without_joints(e: ElementView, depth: nat)
    requires
        without_joints(e),
    ensures
        joints_among(pre_order(e, depth)).len() == 0,
    decreases e,
{
    let head = seq![(e, depth)];
    lemma_joints_among_adds(head, pre_order_nodes(e.children, depth + 1));
    lemma_nodes_without_joints(e.children, depth + 1);
    reveal_with_fuel(joints_among, 2);
    assert(head.drop_last() =~= Seq::empty());
    assert(joints_among(head).len() == 0);
}

proof fn lemma_nodes_without_joints(nodes: Seq<NodeView>, depth: nat)
    requires
        nodes_without_joints(nodes),
    ensures
        joints_among(pre_order_nodes(nodes, depth)).len() == 0,
    decreases nodes,
{
    if nodes.len() > 0 {
        lemma_nodes_without_joints(nodes.drop_last(), depth);
        match nodes.last() {
            NodeView::Element(e) => {
                lemma_without_joints(e, depth);
                lemma_joints_among_adds(
                    pre_order_nodes(nodes.drop_last(), depth),
                    pre_order(e, depth),
                );
            },
            _ => {
                assert(pre_order_nodes(nodes, depth) =~= pre_order_nodes(nodes.drop_last(), depth));
            },
        }
    }
}

/// Whether joints begin at the given depth, stay at it or below, and skip no
/// level.
spec fn descends_from(depths: Seq<nat>, depth: nat) -> bool {
    &&& depths.len() > 0 ==> depths[0] == depth
    &&& forall|i: int| 0 <= i < depths.len() ==> #[trigger] depths[i] >= depth
    &&& forall|i: int| 0 < i < depths.len() ==> #[trigger] depths[i] <= depths[i - 1] + 1
}

proof fn lemma_descends_adds(a: Seq<(ElementView, nat)>, b: Seq<(ElementView, nat)>, depth: nat)
    requires
        descends_from(depths(a), depth),
        descends_from(depths(b), depth),
    ensures
        descends_from(depths(a + b), depth),
{
    let both = depths(a + b);
    assert(both =~= depths(a) + depths(b));
    assert forall|i: int| 0 < i < both.len() implies #[trigger] both[i] <= both[i - 1] + 1 by {
        if i < a.len() {
            assert(both[i] == depths(a)[i] && both[i - 1] == depths(a)[i - 1]);
        } else if i == a.len() {
            assert(both[i - 1] == depths(a)[i - 1]);
            assert(both[i] == depths(b)[0]);
        } else {
            assert(both[i] == depths(b)[i - a.len()]);
            assert(both[i - 1] == depths(b)[i - a.len() - 1]);
        }
    }
    assert forall|i: int| 0 <= i < both.len() implies #[trigger] both[i] >= depth by {
        if i < a.len() {
            assert(both[i] == depths(a)[i]);
        } else {
            assert(both[i] == depths(b)[i - a.len()]);
        }
    }
}

proof fn lemma_nested_joints_descend(e: ElementView, depth: nat)
    requires
        joints_nest(e),
    ensures
        descends_from(depths(joints_among(pre_order(e, depth))), depth),
    decreases e,
{
    let head = seq![(e, depth)];
    let below = joints_among(pre_order_nodes(e.children, depth + 1));
    lemma_joints_among_adds(head, pre_order_nodes(e.children, depth + 1));
    lemma_nested_nodes_descend(e.children, depth + 1);
    reveal_with_fuel(joints_among, 2);
    assert(head.drop_last() =~= Seq::empty());
    assert(joints_among(head) =~= head);
    let all = depths(head + below);
    assert(all =~= seq![depth] + depths(below));
    assert forall|i: int| 0 < i < all.len() implies #[trigger] all[i] <= all[i - 1] + 1 by {
        assert(all[i] == depths(below)[i - 1]);
        if i > 1 {
            assert(all[i - 1] == depths(below)[i - 2]);
        }
    }
    assert forall|i: int| 0 <= i < all.len() implies #[trigger] all[i] >= depth by {
        if i > 0 {
            assert(all[i] == depths(below)[i - 1]);
        }
    }
}

proof fn lemma_nested_nodes_descend(nodes: Seq<NodeView>, depth: nat)
    requires
        nodes_nest(nodes),
    ensures
        descends_from(depths(joints_among(pre_order_nodes(nodes, depth))), depth),
    decreases nodes,
{
    if nodes.len() > 0 {
        let before = pre_order_nodes(nodes.drop_last(), depth);
        lemma_nested_nodes_descend(nodes.drop_last(), depth);
        match nodes.last() {
            NodeView::Element(e) => {
                if joints_nest(e) {
                    lemma_nested_joints_descend(e, depth);
                } else {
                    lemma_without_joints(e, depth);
                }
                lemma_joints_among_adds(before, pre_order(e, depth));
                lemma_descends_adds(
                    joints_among(before),
                    joints_among(pre_order(e, depth)),
                    depth,
                );
            },
            _ => {
                assert(pre_order_nodes(nodes, depth) =~= before);
            },
        }
    }
}

/// Joints that nest skip no level.
pub proof fn law_nested_joints_skip_no_level(root: ElementView)
    requires
        joints_nest(root),
    ensures
        skips_no_level(depths(joints_among(pre_order(root, 0)))),
{
    lemma_nested_joints_descend(root, 0);
}

/// Where no level is skipped, the parent of a joint is the one that encloses it.
proof fn lemma_last_parent_encloses(levels: Seq<nat>, k: int)
    requires
        skips_no_level(levels),
        0 <= k < levels.len(),
    ensures
        levels[k] == 0 ==> last_parent(levels.take(k + 1)) == ROOT_JOINT_PARENT_INDEX,
        levels[k] > 0 ==> exists|p: int| #[trigger] encloses(levels, p, k),
        forall|p: int| #[trigger]
            encloses(levels, p, k) ==> last_parent(levels.take(k + 1)) == joint_index(p),
{
    let shorter = levels.take(k);
    assert(levels.take(k + 1).drop_last() =~= shorter);
    assert forall|i: int| 0 < i < shorter.len() implies #[trigger] shorter[i] <= shorter[i - 1]
        + 1 by {
        assert(levels[i] <= levels[i - 1] + 1);
    }
    lemma_stack_entries(shorter);
    lemma_stack_without_gaps(shorter);
    let before = parent_stack(shorter);
    let last = levels[k];
    if k > 0 {
        assert(levels[k] <= levels[k - 1] + 1);
        assert(shorter.last() == levels[k - 1]);
    }
    assert(trimmed(before, last).len() == last + 1);
    assert(last_parent(levels.take(k + 1)) == before[last as int]);
    if last > 0 {
        let d = (last - 1) as nat;
        assert(k > 0);
        let p = lemma_open_joint(shorter, d);
        assert(encloses(levels, p, k)) by {
            assert forall|j: int| p < j < k implies #[trigger] levels[j] >= last by {
                assert(shorter[j] > d);
            }
        }
        assert forall|q: int| #[trigger] encloses(levels, q, k) implies last_parent(
            levels.take(k + 1),
        ) == joint_index(q) by {
            assert forall|j: int| q < j < shorter.len() implies #[trigger] shorter[j] > d by {
                assert(levels[j] >= last);
            }
            assert(is_open_at(shorter, d, q));
        }
    }
}

/// In a skeleton whose joints nest, a joint at depth zero has no parent, and the
/// parent of any other is the joint that encloses it.
pub proof fn law_parent_is_the_enclosing_joint(
    doc: DocumentView,
    root: ElementView,
    data: BindDataView,
    k: int,
)
    requires
        doc.skeleton(root, data) matches Ok(Some(_)),
        joints_nest(root),
        0 <= k < doc.skeleton(root, data)->Ok_0->0.joints.len(),
    ensures
        ({
            let parent = doc.skeleton(root, data)->Ok_0->0.joints[k].parent_index;
            let levels = depths(joints_among(pre_order(root, 0)));
            &&& levels[k] == 0 ==> parent == ROOT_JOINT_PARENT_INDEX
            &&& levels[k] > 0 ==> exists|p: int| #[trigger] encloses(levels, p, k)
            &&& forall|p: int| #[trigger] encloses(levels, p, k) ==> parent == joint_index(p)
        }),
{
    let elements = joints_among(pre_order(root, 0));
    law_skeleton_follows_its_elements(doc, root, data);
    law_nested_joints_skip_no_level(root);
    assert(depths(elements.take(k + 1)) =~= depths(elements).take(k + 1));
    lemma_last_parent_encloses(depths(elements), k);
    let joint = doc.skeleton(root, data)->Ok_0->0.joints[k];
    assert(joint.parent_index == last_parent(depths(elements).take(k + 1)));
}

/// The levels of joints at the given depths once the gaps are closed: the first
/// is at level zero, and each other at its depth or, where that is further down,
/// one level below the one before it.
pub open spec fn closed(depths: Seq<nat>) -> Seq<nat>
    decreases depths.len(),
{
    if depths.len() == 0 {
        Seq::empty()
    } else {
        let before = closed(depths.drop_last());
        let lowest: nat = if before.len() == 0 {
            0
        } else {
            before.last() + 1
        };
        before.push(
            if depths.last() < lowest {
                depths.last()
            } else {
                lowest
            },
        )
    }
}

proof fn lemma_closed(depths: Seq<nat>)
    ensures
        closed(depths).len() == depths.len(),
        skips_no_level(closed(depths)),
        parent_stack(closed(depths)) == parent_stack(depths),
        depths.len() > 0 ==> last_parent(closed(depths)) == last_parent(depths),
    decreases depths.len(),
{
    if depths.len() > 0 {
        let shorter = depths.drop_last();
        let levels = closed(depths);
        let before = closed(shorter);
        lemma_closed(shorter);
        assert(levels.drop_last() =~= before);
        lemma_stack_without_gaps(before);
        assert forall|i: int| 0 < i < levels.len() implies #[trigger] levels[i] <= levels[i - 1] + 1 by {
            if i < before.len() {
                assert(before[i] <= before[i - 1] + 1);
            }
        }
        let stack = parent_stack(before);
        assert(trimmed(stack, levels.last()) =~= trimmed(stack, depths.last()));
    } else {
        assert(closed(depths) =~= depths);
    }
}

proof fn lemma_closed_take(depths: Seq<nat>, k: int)
    requires
        0 <= k <= depths.len(),
    ensures
        closed(depths).len() == depths.len(),
        closed(depths).take(k) == closed(depths.take(k)),
    decreases depths.len(),
{
    lemma_closed(depths);
    if k == depths.len() {
        assert(depths.take(k) =~= depths);
        assert(closed(depths).take(k) =~= closed(depths));
    } else {
        let shorter = depths.drop_last();
        lemma_closed_take(shorter, k);
        assert(shorter.take(k) =~= depths.take(k));
        assert(closed(depths).take(k) =~= closed(shorter).take(k));
    }
}

/// The first joint of any skeleton has no parent, and the parent of any other is
/// the last one before it that is one level up once the gaps are closed, with
/// none as far up in between.
pub proof fn law_parent_is_one_level_up(doc: DocumentView, root: ElementView, data: BindDataView, k: int)
    requires
        doc.skeleton(root, data) matches Ok(Some(_)),
        0 <= k < doc.skeleton(root, data)->Ok_0->0.joints.len(),
    ensures
        ({
            let parent = doc.skeleton(root, data)->Ok_0->0.joints[k].parent_index;
            let levels = closed(depths(joints_among(pre_order(root, 0))));
            &&& k == 0 ==> parent == ROOT_JOINT_PARENT_INDEX
            &&& k > 0 ==> exists|p: int| #[trigger] encloses(levels, p, k)
            &&& forall|p: int| #[trigger] encloses(levels, p, k) ==> parent == joint_index(p)
        }),
{
    let elements = joints_among(pre_order(root, 0));
    let all = depths(elements);
    let levels = closed(all);
    law_skeleton_follows_its_elements(doc, root, data);
    lemma_closed(all);
    lemma_last_parent_encloses(levels, k);
    lemma_closed_take(all, k + 1);
    lemma_closed(all.take(k + 1));
    assert(depths(elements.take(k + 1)) =~= all.take(k + 1));
    let joint = doc.skeleton(root, data)->Ok_0->0.joints[k];
    assert(joint.parent_index == last_parent(levels.take(k + 1)));
    if k > 0 {
        lemma_later_joints_are_below(root, k);
        let upto = all.take(k + 1);
        assert(upto.drop_last() =~= all.take(k));
        lemma_closed(all.take(k));
        assert(closed(upto).last() > 0);
        assert(levels.take(k + 1).last() == levels[k]);
    } else {
        assert(levels[0] == 0);
    }
}

/// The mark of the root is the largest joint index.
pub proof fn law_mark_of_the_root(index: JointIndex)
    ensures
        index <= ROOT_JOINT_PARENT_INDEX,
{
}

} // verus!
