//! What skeletons are read from.

use vstd::prelude::*;

use crate::document::{DocumentView, Malformed};
use crate::element::ElementView;
use crate::laws::joints::{law_skeleton_follows_its_elements, lemma_joints_among_adds};
use crate::laws::libraries::{gathered, is_found, is_missing, law_skeletons_are_gathered};
use crate::laws::lookup::law_first_place_is_found;
use crate::laws::skeletons::{first_named, lemma_first_of_ids, named_by};
use crate::number::Number;
use crate::skeleton::{joints_among, nodes_with_id, skeleton_ids};
use crate::skin::BindDataView;
use crate::text::without_hashes;
use crate::traversal::pre_order;

verus! {

/// The joints of a walk are those of its first elements and then those of the
/// others. One element is a joint exactly when it is a `node` whose `type` is
/// `JOINT`.
pub proof fn law_joints_in_parts(
    a: Seq<(ElementView, nat)>,
    b: Seq<(ElementView, nat)>,
    one: (ElementView, nat),
)
    ensures
        joints_among(a + b) == joints_among(a) + joints_among(b),
        one.0.name == "node"@ && one.0.attribute("type"@) == Some("JOINT"@) ==> joints_among(
            seq![one],
        ) == seq![one],
        one.0.name != "node"@ || one.0.attribute("type"@) != Some("JOINT"@) ==> joints_among(
            seq![one],
        ).len() == 0,
{
    lemma_joints_among_adds(a, b);
    reveal_with_fuel(joints_among, 2);
    assert(seq![one].drop_last() =~= Seq::empty());
    if one.0.name == "node"@ && one.0.attribute("type"@) == Some("JOINT"@) {
        assert(joints_among(seq![one]) =~= seq![one]);
    }
}

/// Whether a joint element has an id and a matrix of numbers.
pub open spec fn is_complete(doc: DocumentView, e: ElementView) -> bool {
    &&& e.attribute("id"@) is Some
    &&& e.element("matrix"@, doc.root.ns) is Some
    &&& doc.numbers_in(e.element("matrix"@, doc.root.ns)->0) is Some
}

/// Whether joint `i` is the first that is not complete.
pub open spec fn is_first_incomplete(doc: DocumentView, joints: Seq<(ElementView, nat)>, i: int) -> bool {
    &&& 0 <= i < joints.len()
    &&& !is_complete(doc, joints[i].0)
    &&& forall|j: int| 0 <= j < i ==> is_complete(doc, (#[trigger] joints[j]).0)
}

/// A skeleton is read exactly when all its joints are complete. Otherwise the
/// first that is not decides: without an id it is malformed, and without a matrix
/// of numbers there is no skeleton.
pub proof fn law_skeleton_of_complete_joints(doc: DocumentView, root: ElementView, data: BindDataView)
    ensures
        ({
            let joints = joints_among(pre_order(root, 0));
            &&& is_found(doc.skeleton(root, data)) <==> forall|i: int|
                0 <= i < joints.len() ==> is_complete(doc, (#[trigger] joints[i]).0)
            &&& forall|i: int| #[trigger]
                is_first_incomplete(doc, joints, i) ==> if joints[i].0.attribute("id"@) is None {
                    doc.skeleton(root, data) is Err
                } else {
                    is_missing(doc.skeleton(root, data))
                }
        }),
{
    lemma_skeleton_of_complete_joints(doc, joints_among(pre_order(root, 0)), data);
}

proof fn lemma_skeleton_of_complete_joints(
    doc: DocumentView,
    joints: Seq<(ElementView, nat)>,
    data: BindDataView,
)
    ensures
        is_found(doc.skeleton_of(joints, data)) <==> forall|i: int|
            0 <= i < joints.len() ==> is_complete(doc, (#[trigger] joints[i]).0),
        forall|i: int| #[trigger]
            is_first_incomplete(doc, joints, i) ==> if joints[i].0.attribute("id"@) is None {
                doc.skeleton_of(joints, data) is Err
            } else {
                is_missing(doc.skeleton_of(joints, data))
            },
    decreases joints.len(),
{
    if joints.len() > 0 {
        let shorter = joints.drop_last();
        let n = shorter.len() as int;
        lemma_skeleton_of_complete_joints(doc, shorter, data);
        assert forall|i: int| 0 <= i < n implies #[trigger] shorter[i] == joints[i] by {}
        assert(joints.last() == joints[n]);
        if is_found(doc.skeleton_of(joints, data)) {
            assert(is_found(doc.skeleton_of(shorter, data)));
            assert forall|i: int| 0 <= i < joints.len() implies is_complete(
                doc,
                (#[trigger] joints[i]).0,
            ) by {
                if i < n {
                    assert(is_complete(doc, shorter[i].0));
                }
            }
        }
        if forall|i: int| 0 <= i < joints.len() ==> is_complete(doc, (#[trigger] joints[i]).0) {
            assert forall|i: int| 0 <= i < n implies is_complete(doc, (#[trigger] shorter[i]).0) by {
                assert(is_complete(doc, joints[i].0));
            }
            assert(is_complete(doc, joints[n].0));
        }
        assert forall|i: int| #[trigger] is_first_incomplete(doc, joints, i) implies if joints[i].0.attribute(
            "id"@,
        ) is None {
            doc.skeleton_of(joints, data) is Err
        } else {
            is_missing(doc.skeleton_of(joints, data))
        } by {
            assert forall|j: int| 0 <= j < i && j < n implies is_complete(doc, (#[trigger] shorter[j]).0) by {
                assert(is_complete(doc, joints[j].0));
            }
            if i < n {
                assert(shorter[i] == joints[i]);
                assert(is_first_incomplete(doc, shorter, i));
            }
        }
    }
}

/// A joint whose name the bind data lists has, cell by cell, the inverse bind
/// pose that stands in the same place as the first entry of that name.
pub proof fn law_joint_has_the_pose_of_its_name(
    doc: DocumentView,
    root: ElementView,
    data: BindDataView,
    k: int,
    p: int,
)
    requires
        is_found(doc.skeleton(root, data)),
        0 <= k < doc.skeleton(root, data)->Ok_0->0.joints.len(),
        0 <= p < data.joint_names.len(),
        p < data.inverse_bind_poses.len(),
        data.joint_names[p] == doc.skeleton(root, data)->Ok_0->0.joints[k].name,
        forall|q: int|
            0 <= q < p ==> #[trigger] data.joint_names[q] != doc.skeleton(
                root,
                data,
            )->Ok_0->0.joints[k].name,
    ensures
        doc.skeleton(root, data)->Ok_0->0.joints[k].inverse_bind_pose.len()
            == data.inverse_bind_poses[p].len(),
        forall|c: int|
            0 <= c < data.inverse_bind_poses[p].len() ==> #[trigger] doc.skeleton(
                root,
                data,
            )->Ok_0->0.joints[k].inverse_bind_pose[c] == data.inverse_bind_poses[p][c],
{
    law_skeleton_follows_its_elements(doc, root, data);
    let name = doc.skeleton(root, data)->Ok_0->0.joints[k].name;
    law_first_place_is_found(data.joint_names, name);
}

/// A joint whose name the bind data does not list, or lists first in a place
/// without a pose, has the identity matrix for its inverse bind pose.
pub proof fn law_joint_without_a_pose_has_the_identity(
    doc: DocumentView,
    root: ElementView,
    data: BindDataView,
    k: int,
    r: int,
    c: int,
)
    requires
        is_found(doc.skeleton(root, data)),
        0 <= k < doc.skeleton(root, data)->Ok_0->0.joints.len(),
        forall|p: int|
            0 <= p < data.joint_names.len() && p < data.inverse_bind_poses.len()
                ==> #[trigger] data.joint_names[p] != doc.skeleton(root, data)->Ok_0->0.joints[k].name,
        0 <= r < 4,
        0 <= c < 4,
    ensures
        doc.skeleton(root, data)->Ok_0->0.joints[k].inverse_bind_pose.len() == 16,
        doc.skeleton(root, data)->Ok_0->0.joints[k].inverse_bind_pose[4 * r + c] == (if r == c {
            Number::one_number()
        } else {
            Number::zero_number()
        }),
{
    law_skeleton_follows_its_elements(doc, root, data);
    let name = doc.skeleton(root, data)->Ok_0->0.joints[k].name;
    law_first_place_is_found(data.joint_names, name);
}

/// The bind pose of a joint is made of the numbers of its matrix, as far as they
/// go, and of the identity matrix from there on.
pub proof fn law_bind_pose_is_the_matrix_of_the_joint(
    doc: DocumentView,
    root: ElementView,
    data: BindDataView,
    k: int,
    r: int,
    c: int,
)
    requires
        is_found(doc.skeleton(root, data)),
        0 <= k < joints_among(pre_order(root, 0)).len(),
        0 <= r < 4,
        0 <= c < 4,
    ensures
        ({
            let e = joints_among(pre_order(root, 0))[k].0;
            let skeleton = doc.skeleton(root, data)->Ok_0->0;
            let numbers = doc.numbers_in(e.element("matrix"@, doc.root.ns)->0)->0;
            let at = 4 * r + c;
            &&& skeleton.joints.len() == joints_among(pre_order(root, 0)).len()
            &&& skeleton.bind_poses.len() == skeleton.joints.len()
            &&& e.attribute("id"@) == Some(skeleton.joints[k].name)
            &&& skeleton.bind_poses[k].len() == 16
            &&& at < numbers.len() ==> skeleton.bind_poses[k][at] == numbers[at]
            &&& at >= numbers.len() && r == c ==> skeleton.bind_poses[k][at] == Number::one_number()
            &&& at >= numbers.len() && r != c ==> skeleton.bind_poses[k][at] == Number::zero_number()
        }),
{
    law_skeleton_follows_its_elements(doc, root, data);
    let joint = doc.skeleton(root, data)->Ok_0->0.joints[k];
}

/// The ids that a walk names are malformed exactly when it comes to a `skeleton`
/// element without content. Otherwise they are those of its first elements and
/// then those of the others, each element giving what it names.
pub proof fn law_named_ids(a: Seq<(ElementView, nat)>, b: Seq<(ElementView, nat)>, one: (ElementView, nat))
    ensures
        skeleton_ids(a) is Err <==> exists|i: int|
            0 <= i < a.len() && (#[trigger] a[i]).0.name == "skeleton"@ && a[i].0.children.len() == 0,
        skeleton_ids(a) is Ok && skeleton_ids(b) is Ok ==> skeleton_ids(a + b) == Ok::<_, Malformed>(
            skeleton_ids(a)->Ok_0 + skeleton_ids(b)->Ok_0,
        ),
        skeleton_ids(seq![one]) is Ok ==> skeleton_ids(seq![one])->Ok_0 == (match named_by(one.0) {
            Some(id) => seq![id],
            None => Seq::empty(),
        }),
        skeleton_ids(a) matches Ok(ids) ==> first_named(a) == (if ids.len() == 0 {
            None
        } else {
            Some(ids[0])
        }),
{
    lemma_ids_malformed(a);
    if skeleton_ids(a) is Ok {
        lemma_first_of_ids(a);
        if skeleton_ids(b) is Ok {
            lemma_ids_add(a, b);
        }
    }
    reveal_with_fuel(skeleton_ids, 2);
    assert(seq![one].drop_last() =~= Seq::empty());
    if skeleton_ids(seq![one]) is Ok {
        match named_by(one.0) {
            Some(id) => {
                assert(skeleton_ids(seq![one])->Ok_0 =~= seq![id]);
            },
            None => {
                assert(skeleton_ids(seq![one])->Ok_0 =~= Seq::empty());
            },
        }
    }
}

proof fn lemma_ids_malformed(a: Seq<(ElementView, nat)>)
    ensures
        skeleton_ids(a) is Err <==> exists|i: int|
            0 <= i < a.len() && (#[trigger] a[i]).0.name == "skeleton"@ && a[i].0.children.len() == 0,
    decreases a.len(),
{
    if a.len() > 0 {
        let shorter = a.drop_last();
        lemma_ids_malformed(shorter);
        if skeleton_ids(shorter) is Err {
            let i = choose|i: int|
                0 <= i < shorter.len() && (#[trigger] shorter[i]).0.name == "skeleton"@
                    && shorter[i].0.children.len() == 0;
            assert(a[i] == shorter[i]);
        } else if skeleton_ids(a) is Err {
            assert(a[a.len() - 1].0.name == "skeleton"@);
        }
        if exists|i: int|
            0 <= i < a.len() && (#[trigger] a[i]).0.name == "skeleton"@ && a[i].0.children.len() == 0 {
            let i = choose|i: int|
                0 <= i < a.len() && (#[trigger] a[i]).0.name == "skeleton"@ && a[i].0.children.len()
                    == 0;
            if i < shorter.len() {
                assert(shorter[i] == a[i]);
            }
        }
    }
}

proof fn lemma_ids_add(a: Seq<(ElementView, nat)>, b: Seq<(ElementView, nat)>)
    requires
        skeleton_ids(a) is Ok,
        skeleton_ids(b) is Ok,
    ensures
        skeleton_ids(a + b) == Ok::<_, Malformed>(skeleton_ids(a)->Ok_0 + skeleton_ids(b)->Ok_0),
    decreases b.len(),
{
    if b.len() == 0 {
        assert(a + b =~= a);
        assert(skeleton_ids(a)->Ok_0 + skeleton_ids(b)->Ok_0 =~= skeleton_ids(a)->Ok_0);
    } else {
        lemma_ids_add(a, b.drop_last());
        assert((a + b).drop_last() =~= a + b.drop_last());
        assert((a + b).last() == b.last());
        assert(skeleton_ids(a + b)->Ok_0 =~= skeleton_ids(a)->Ok_0 + skeleton_ids(b)->Ok_0);
    }
}

/// The nodes of a walk with some id are those of its first elements and then
/// those of the others. One element is such a node exactly when it is a `node`
/// whose id it is.
pub proof fn law_nodes_with_an_id_in_parts(
    a: Seq<(ElementView, nat)>,
    b: Seq<(ElementView, nat)>,
    one: (ElementView, nat),
    id: Seq<char>,
)
    ensures
        nodes_with_id(a + b, id) == nodes_with_id(a, id) + nodes_with_id(b, id),
        one.0.name == "node"@ && one.0.attribute("id"@) == Some(id) ==> nodes_with_id(seq![one], id)
            == seq![one.0],
        one.0.name != "node"@ || one.0.attribute("id"@) != Some(id) ==> nodes_with_id(
            seq![one],
            id,
        ).len() == 0,
    decreases b.len(),
{
    reveal_with_fuel(nodes_with_id, 2);
    assert(seq![one].drop_last() =~= Seq::empty());
    if one.0.name == "node"@ && one.0.attribute("id"@) == Some(id) {
        assert(nodes_with_id(seq![one], id) =~= seq![one.0]);
    }
    if b.len() == 0 {
        assert(a + b =~= a);
    } else {
        law_nodes_with_an_id_in_parts(a, b.drop_last(), one, id);
        assert((a + b).drop_last() =~= a + b.drop_last());
        assert((a + b).last() == b.last());
    }
    assert(nodes_with_id(a + b, id) =~= nodes_with_id(a, id) + nodes_with_id(b, id));
}

/// There are no skeletons without a library of visual scenes, a scene in it, or
/// bind data, nor where the scene names no id; malformed bind data, or a
/// `skeleton` element of the scene without content, is malformed.
pub proof fn law_skeletons_without_their_parts(doc: DocumentView)
    ensures
        doc.first_scene() is None ==> is_missing(doc.skeletons()),
        doc.first_scene() matches Some(scene) ==> {
            let all = pre_order(scene, 0);
            &&& doc.bind_data_set() is Err ==> doc.skeletons() is Err
            &&& is_missing(doc.bind_data_set()) ==> is_missing(doc.skeletons())
            &&& is_found(doc.bind_data_set()) && skeleton_ids(all) is Err ==> doc.skeletons() is Err
            &&& is_found(doc.bind_data_set()) && skeleton_ids(all) is Ok && first_named(all) is None
                ==> is_missing(doc.skeletons())
        },
{
    if let Some(scene) = doc.first_scene() {
        if skeleton_ids(pre_order(scene, 0)) is Ok {
            lemma_first_of_ids(pre_order(scene, 0));
        }
    }
}

/// The skeletons of a document are what reading each node of its first visual
/// scene that has the id which is named first comes to, with the first of the
/// bind data. Where there is such a node and no bind data the document is
/// malformed.
pub proof fn law_skeletons_from_their_parts(
    doc: DocumentView,
    scene: ElementView,
    data: Seq<BindDataView>,
    id: Seq<char>,
)
    requires
        doc.first_scene() == Some(scene),
        doc.bind_data_set() == Ok::<_, Malformed>(Some(data)),
        skeleton_ids(pre_order(scene, 0)) is Ok,
        first_named(pre_order(scene, 0)) == Some(id),
    ensures
        ({
            let roots = nodes_with_id(pre_order(scene, 0), id);
            let found = gathered(Seq::new(roots.len(), |i: int| doc.skeleton(roots[i], data[0])));
            &&& data.len() == 0 && roots.len() == 0 ==> is_found(doc.skeletons())
                && doc.skeletons()->Ok_0->0.len() == 0
            &&& data.len() == 0 && roots.len() > 0 ==> doc.skeletons() is Err
            &&& data.len() > 0 ==> (doc.skeletons() is Err <==> found is Err)
            &&& data.len() > 0 && found is Ok ==> doc.skeletons() == Ok::<_, Malformed>(
                Some(found->Ok_0),
            )
        }),
{
    let all = pre_order(scene, 0);
    lemma_first_of_ids(all);
    if data.len() > 0 {
        law_skeletons_are_gathered(doc, nodes_with_id(all, id), data);
    }
}

/// The first visual scene is that of the first library of them.
pub proof fn law_first_scene(doc: DocumentView)
    ensures
        doc.root.element("library_visual_scenes"@, doc.root.ns) is None ==> doc.first_scene() is None,
        doc.root.element("library_visual_scenes"@, doc.root.ns) matches Some(library)
            ==> doc.first_scene() == library.element("visual_scene"@, doc.root.ns),
{
}

/// An element names an id exactly when it is a `skeleton` element whose first
/// child is text, and then that text without the `#` before it.
pub proof fn law_naming_an_id(e: ElementView)
    ensures
        named_by(e) is Some <==> e.name == "skeleton"@ && e.children.len() > 0
            && e.children[0] is Characters,
        named_by(e) matches Some(id) ==> id == without_hashes(e.children[0]->Characters_0),
{
}

} // verus!
