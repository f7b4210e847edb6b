//! The skeletons of a document.

use vstd::prelude::*;

use crate::binding::joint_index;
use crate::document::{ColladaDocument, DocumentView, Malformed, Outcome};
use crate::element::{element_views, node_view, ElementView, NodeView, XmlElement, XmlNode};
use crate::number::{cells, cells_of_all, identity_cells, mat4_id, pose_cells, pose_matrix};
use crate::number::{Matrix4, Number};
use crate::skin::{bind_data_views, joint_views, skeleton_views, BindData, BindDataView, Joint, JointIndex};
use crate::skin::{JointView, Skeleton, SkeletonView, ROOT_JOINT_PARENT_INDEX};
use crate::text::{first_place, strip_hashes, texts, without_hashes};
use crate::traversal::{pre_order, pre_order_with_depth, visits_are, Visit};

verus! {

/// Whether an element is a joint.
pub open spec fn is_joint(e: ElementView) -> bool {
    e.name == "node"@ && e.has_attribute("type"@, "JOINT"@)
}

/// The joints among the elements of a walk.
pub open spec fn joints_among(all: Seq<(ElementView, nat)>) -> Seq<(ElementView, nat)>
    decreases all.len(),
{
    if all.len() == 0 {
        Seq::empty()
    } else if is_joint(all.last().0) {
        joints_among(all.drop_last()).push(all.last())
    } else {
        joints_among(all.drop_last())
    }
}

/// The depths of the elements of a walk.
pub open spec fn depths(all: Seq<(ElementView, nat)>) -> Seq<nat> {
    Seq::new(all.len(), |i: int| all[i].1)
}

/// What is left of a stack of joints for one at the given depth: no more than
/// one above each of the depths down to its own.
pub open spec fn trimmed(stack: Seq<JointIndex>, depth: nat) -> Seq<JointIndex> {
    if depth + 1 < stack.len() {
        stack.take(depth as int + 1)
    } else {
        stack
    }
}

/// The joints that may yet become parents, after joints at the given depths,
/// the deepest last.
pub open spec fn parent_stack(depths: Seq<nat>) -> Seq<JointIndex>
    decreases depths.len(),
{
    if depths.len() == 0 {
        seq![ROOT_JOINT_PARENT_INDEX]
    } else {
        trimmed(parent_stack(depths.drop_last()), depths.last()).push(joint_index(depths.len() - 1))
    }
}

/// The parent of the last of the joints at the given depths.
pub open spec fn last_parent(depths: Seq<nat>) -> JointIndex {
    trimmed(parent_stack(depths.drop_last()), depths.last()).last()
}

/// The inverse bind pose of a joint: the one that stands in the same place as
/// its name, or the identity.
pub open spec fn inverse_bind_pose(data: BindDataView, name: Seq<char>) -> Seq<Number> {
    let place = first_place(data.joint_names, name);
    if place < data.joint_names.len() && place < data.inverse_bind_poses.len() {
        data.inverse_bind_poses[place as int]
    } else {
        identity_cells()
    }
}

impl DocumentView {
    /// The skeleton that the given joints make. A joint without an id is
    /// malformed; where a joint has no pose there is no skeleton.
    pub open spec fn skeleton_of(self, joints: Seq<(ElementView, nat)>, data: BindDataView) -> Outcome<
        SkeletonView,
    >
        decreases joints.len(),
    {
        if joints.len() == 0 {
            Ok(Some(SkeletonView { joints: Seq::empty(), bind_poses: Seq::empty() }))
        } else {
            match self.skeleton_of(joints.drop_last(), data) {
                Ok(Some(before)) => self.skeleton_with(before, joints, data),
                other => other,
            }
        }
    }

    /// A skeleton with the last of the given joints added to it.
    pub open spec fn skeleton_with(
        self,
        before: SkeletonView,
        joints: Seq<(ElementView, nat)>,
        data: BindDataView,
    ) -> Outcome<SkeletonView> {
        let e = joints.last().0;
        match e.attribute("id"@) {
            Some(name) => match e.element("matrix"@, self.root.ns) {
                Some(matrix) => match self.numbers_in(matrix) {
                    Some(numbers) => Ok(
                        Some(
                            SkeletonView {
                                joints: before.joints.push(
                                    JointView {
                                        name,
                                        parent_index: last_parent(depths(joints)),
                                        inverse_bind_pose: inverse_bind_pose(data, name),
                                    },
                                ),
                                bind_poses: before.bind_poses.push(pose_cells(numbers)),
                            },
                        ),
                    ),
                    None => Ok(None),
                },
                None => Ok(None),
            },
            None => Err(Malformed {  }),
        }
    }

    /// The skeleton whose joints are the element and the elements below it, as
    /// far as they are joints.
    pub open spec fn skeleton(self, root: ElementView, data: BindDataView) -> Outcome<SkeletonView> {
        self.skeleton_of(joints_among(pre_order(root, 0)), data)
    }
}

/// What reading a skeleton gives.
pub open spec fn skeleton_outcome(r: Outcome<Skeleton>) -> Outcome<SkeletonView> {
    match r {
        Ok(Some(s)) => Ok(Some(s@)),
        Ok(None) => Ok(None),
        Err(e) => Err(e),
    }
}

/// Where the first joints make no skeleton, nor do all of them.
proof fn lemma_skeleton_stops(doc: DocumentView, joints: Seq<(ElementView, nat)>, data: BindDataView, k: int)
    requires
        0 <= k <= joints.len(),
        !(doc.skeleton_of(joints.take(k), data) matches Ok(Some(_))),
    ensures
        doc.skeleton_of(joints, data) == doc.skeleton_of(joints.take(k), data),
    decreases joints.len() - k,
{
    if k == joints.len() {
        assert(joints.take(k) =~= joints);
    } else {
        assert(joints.take(k + 1).drop_last() =~= joints.take(k));
        lemma_skeleton_stops(doc, joints, data, k + 1);
    }
}

/// The joints of the first elements of a walk are the first of its joints.
proof fn lemma_joints_prefix(all: Seq<(ElementView, nat)>, k: int)
    requires
        0 <= k <= all.len(),
    ensures
        joints_among(all.take(k)).len() <= joints_among(all).len(),
        joints_among(all).take(joints_among(all.take(k)).len() as int) == joints_among(all.take(k)),
    decreases all.len() - k,
{
    if k == all.len() {
        assert(all.take(k) =~= all);
        assert(joints_among(all).take(joints_among(all).len() as int) =~= joints_among(all));
    } else {
        lemma_joints_prefix(all, k + 1);
        assert(all.take(k + 1).drop_last() =~= all.take(k));
        let shorter = joints_among(all.take(k));
        let longer = joints_among(all.take(k + 1));
        assert(longer.take(shorter.len() as int) =~= shorter);
        assert(joints_among(all).take(shorter.len() as int) =~= joints_among(all).take(
            longer.len() as int,
        ).take(shorter.len() as int));
    }
}

/// The inverse bind pose of a joint.
fn find_inverse_bind_pose(data: &BindData, name: &String) -> (r: Matrix4)
    ensures
        cells(r) == inverse_bind_pose(data@, name@),
{
    let ghost names = data@.joint_names;
    assert(names.skip(0) =~= names);
    let mut i: usize = 0;
    while i < data.joint_names.len()
        invariant
            i <= data.joint_names@.len(),
            names == texts(data.joint_names@),
            first_place(names, name@) == i + first_place(names.skip(i as int), name@),
        decreases data.joint_names.len() - i,
    {
        let ghost rest = names.skip(i as int);
        assert(rest[0] == data.joint_names@[i as int]@);
        assert(rest.drop_first() =~= names.skip(i + 1));
        if data.joint_names[i] == *name {
            if i < data.inverse_bind_poses.len() {
                return data.inverse_bind_poses[i];
            } else {
                return mat4_id();
            }
        }
        i = i + 1;
    }
    mat4_id()
}

impl ColladaDocument {
    /// Reads the skeleton whose joints are the element and the elements below
    /// it, as far as they are joints.
    #[verifier::rlimit(40)]
    pub fn get_skeleton(&self, root_element: &XmlElement, bind_data: &BindData) -> (r: Outcome<Skeleton>)
        ensures
            skeleton_outcome(r) == self@.skeleton(root_element@, bind_data@),
    {
        let visits = pre_order_with_depth(root_element);
        let ghost all = pre_order(root_element@, 0);
        let ghost every = joints_among(all);
        let mut stack: Vec<JointIndex> = Vec::new();
        stack.push(ROOT_JOINT_PARENT_INDEX);
        let mut joints: Vec<Joint> = Vec::new();
        let mut bind_poses: Vec<Matrix4> = Vec::new();
        assert(joint_views(joints@) =~= Seq::empty());
        assert(cells_of_all(bind_poses@) =~= Seq::empty());
        assert(stack@ =~= parent_stack(depths(Seq::empty())));
        let mut i: usize = 0;
        while i < visits.len()
            invariant
                i <= visits@.len(),
                all == pre_order(root_element@, 0),
                every == joints_among(all),
                visits_are(visits@, all),
                self@.skeleton_of(joints_among(all.take(i as int)), bind_data@) == Ok::<_, Malformed>(
                    Some(
                        SkeletonView {
                            joints: joint_views(joints@),
                            bind_poses: cells_of_all(bind_poses@),
                        },
                    ),
                ),
                joints@.len() == joints_among(all.take(i as int)).len(),
                stack@ == parent_stack(depths(joints_among(all.take(i as int)))),
                stack@.len() >= 1,
            decreases visits.len() - i,
        {
            let element = visits[i].element;
            let depth = visits[i].depth;
            let ghost before = joints_among(all.take(i as int));
            let ghost next = joints_among(all.take(i + 1));
            assert(all.take(i + 1).drop_last() =~= all.take(i as int));
            assert(all.take(i + 1).last() == all[i as int]);
            if *element.name.as_str() == *"node" && element.has_attribute_with_value("type", "JOINT") {
                assert(next == before.push(all[i as int]));
                assert(next.drop_last() =~= before);
                assert(depths(next).drop_last() =~= depths(before));
                proof {
                    lemma_joints_prefix(all, i + 1);
                }
                let ghost full = stack@;
                // Where the walk has come back up, the joints below are no
                // parents any more.
                while depth < stack.len() - 1
                    invariant
                        1 <= stack@.len() <= full.len(),
                        stack@ == full.take(stack@.len() as int),
                        stack@.len() == full.len() || stack@.len() > depth,
                        stack@.len() < full.len() ==> depth + 1 <= stack@.len(),
                    decreases stack.len(),
                {
                    let _ = stack.pop();
                    assert(stack@ =~= full.take(stack@.len() as int));
                }
                assert(stack@ =~= trimmed(full, all[i as int].1));
                let joint_name = match element.get_attribute("id", None) {
                    Some(id) => id.to_owned(),
                    None => {
                        proof {
                            lemma_skeleton_stops(self@, every, bind_data@, next.len() as int);
                        }
                        return Err(Malformed {  });
                    },
                };
                let inverse_bind_pose = find_inverse_bind_pose(bind_data, &joint_name);
                let parent_index = stack[stack.len() - 1];
                let matrix = match element.get_child("matrix", self.get_ns()) {
                    Some(matrix) => matrix,
                    None => {
                        proof {
                            lemma_skeleton_stops(self@, every, bind_data@, next.len() as int);
                        }
                        return Ok(None);
                    },
                };
                let numbers = match self.get_number_content(matrix) {
                    Some(numbers) => numbers,
                    None => {
                        proof {
                            lemma_skeleton_stops(self@, every, bind_data@, next.len() as int);
                        }
                        return Ok(None);
                    },
                };
                let index = joints.len();
                let ghost old_joints = joints@;
                let ghost old_poses = bind_poses@;
                let pose = pose_matrix(&numbers);
                let joint = Joint { name: joint_name, parent_index, inverse_bind_pose };
                joints.push(joint);
                bind_poses.push(pose);
                stack.push((index % 256) as JointIndex);
                assert(joint_views(joints@) =~= joint_views(old_joints).push(joint@));
                assert(cells_of_all(bind_poses@) =~= cells_of_all(old_poses).push(cells(pose)));
            } else {
                assert(next == before);
            }
            i = i + 1;
        }
        assert(all.take(all.len() as int) =~= all);
        Ok(Some(Skeleton { joints, bind_poses }))
    }
}

/// The ids that the `skeleton` elements of a walk name, those left out whose
/// content begins with something other than text. One without content is
/// malformed.
pub open spec fn skeleton_ids(all: Seq<(ElementView, nat)>) -> Result<Seq<Seq<char>>, Malformed>
    decreases all.len(),
{
    if all.len() == 0 {
        Ok(Seq::empty())
    } else {
        let e = all.last().0;
        match skeleton_ids(all.drop_last()) {
            Ok(before) => if e.name != "skeleton"@ {
                Ok(before)
            } else if e.children.len() == 0 {
                Err(Malformed {  })
            } else {
                match e.children[0] {
                    NodeView::Characters(text) => Ok(before.push(without_hashes(text))),
                    _ => Ok(before),
                }
            },
            Err(e) => Err(e),
        }
    }
}

/// The nodes of a walk that have the given id.
pub open spec fn nodes_with_id(all: Seq<(ElementView, nat)>, id: Seq<char>) -> Seq<ElementView>
    decreases all.len(),
{
    if all.len() == 0 {
        Seq::empty()
    } else {
        let before = nodes_with_id(all.drop_last(), id);
        let e = all.last().0;
        if e.name == "node"@ && e.has_attribute("id"@, id) {
            before.push(e)
        } else {
            before
        }
    }
}

impl DocumentView {
    /// The skeletons of the given roots, bound by the first of the bind data;
    /// roots without a skeleton are left out. A root is malformed where there is
    /// no bind data.
    pub open spec fn skeletons_among(self, roots: Seq<ElementView>, data: Seq<BindDataView>) -> Result<
        Seq<SkeletonView>,
        Malformed,
    >
        decreases roots.len(),
    {
        if roots.len() == 0 {
            Ok(Seq::empty())
        } else if data.len() == 0 {
            Err(Malformed {  })
        } else {
            match (self.skeletons_among(roots.drop_last(), data), self.skeleton(roots.last(), data[0])) {
                (Ok(before), Ok(Some(skeleton))) => Ok(before.push(skeleton)),
                (Ok(before), Ok(None)) => Ok(before),
                _ => Err(Malformed {  }),
            }
        }
    }

    /// The skeletons of a scene: those of the nodes that have the id which the
    /// first `skeleton` element names. Where no element names one there are
    /// none.
    pub open spec fn skeletons_in(self, scene: ElementView, data: Seq<BindDataView>) -> Outcome<
        Seq<SkeletonView>,
    > {
        let all = pre_order(scene, 0);
        match skeleton_ids(all) {
            Ok(ids) => if ids.len() == 0 {
                Ok(None)
            } else {
                match self.skeletons_among(nodes_with_id(all, ids[0]), data) {
                    Ok(list) => Ok(Some(list)),
                    Err(e) => Err(e),
                }
            },
            Err(e) => Err(e),
        }
    }

    /// The skeletons of the first visual scene of the document, or nothing where
    /// it has no scene, no bind data or no skeletons.
    pub open spec fn skeletons(self) -> Outcome<Seq<SkeletonView>> {
        match self.root.element("library_visual_scenes"@, self.root.ns) {
            Some(library) => match library.element("visual_scene"@, self.root.ns) {
                Some(scene) => match self.bind_data_set() {
                    Ok(Some(data)) => self.skeletons_in(scene, data),
                    Ok(None) => Ok(None),
                    Err(e) => Err(e),
                },
                None => Ok(None),
            },
            None => Ok(None),
        }
    }
}

/// What reading skeletons gives.
pub open spec fn skeletons_outcome(r: Outcome<Vec<Skeleton>>) -> Outcome<Seq<SkeletonView>> {
    match r {
        Ok(Some(list)) => Ok(Some(skeleton_views(list@))),
        Ok(None) => Ok(None),
        Err(e) => Err(e),
    }
}

/// A malformed element makes the walk that it stands in malformed.
proof fn lemma_skeleton_ids_malformed(all: Seq<(ElementView, nat)>, k: int)
    requires
        0 <= k <= all.len(),
        skeleton_ids(all.take(k)) is Err,
    ensures
        skeleton_ids(all) is Err,
    decreases all.len() - k,
{
    if k == all.len() {
        assert(all.take(k) =~= all);
    } else {
        assert(all.take(k + 1).drop_last() =~= all.take(k));
        lemma_skeleton_ids_malformed(all, k + 1);
    }
}

/// A malformed root makes the list that it stands in malformed.
proof fn lemma_skeletons_malformed(
    doc: DocumentView,
    roots: Seq<ElementView>,
    data: Seq<BindDataView>,
    k: int,
)
    requires
        0 <= k <= roots.len(),
        doc.skeletons_among(roots.take(k), data) is Err,
    ensures
        doc.skeletons_among(roots, data) is Err,
    decreases roots.len() - k,
{
    if k == roots.len() {
        assert(roots.take(k) =~= roots);
    } else {
        assert(roots.take(k + 1).drop_last() =~= roots.take(k));
        lemma_skeletons_malformed(doc, roots, data, k + 1);
    }
}

/// Reads the ids that the `skeleton` elements of a walk name.
fn read_skeleton_ids(visits: &Vec<Visit>, Ghost(all): Ghost<Seq<(ElementView, nat)>>) -> (r: Result<
    Vec<String>,
    Malformed,
>)
    requires
        visits_are(visits@, all),
    ensures
        match r {
            Ok(ids) => skeleton_ids(all) == Ok::<_, Malformed>(texts(ids@)),
            Err(_) => skeleton_ids(all) is Err,
        },
{
    let mut out: Vec<String> = Vec::new();
    assert(texts(out@) =~= Seq::empty());
    let mut i: usize = 0;
    while i < visits.len()
        invariant
            i <= visits@.len(),
            visits_are(visits@, all),
            skeleton_ids(all.take(i as int)) == Ok::<_, Malformed>(texts(out@)),
        decreases visits.len() - i,
    {
        let element = visits[i].element;
        let ghost held = out@;
        assert(all.take(i + 1).drop_last() =~= all.take(i as int));
        assert(all.take(i + 1).last() == all[i as int]);
        if *element.name.as_str() == *"skeleton" {
            if element.children.len() == 0 {
                proof {
                    lemma_skeleton_ids_malformed(all, i + 1);
                }
                return Err(Malformed {  });
            }
            assert(element@.children[0] == node_view(element.children@[0]));
            match &element.children[0] {
                XmlNode::Characters(text) => {
                    let id = strip_hashes(text.as_str());
                    out.push(id);
                    assert(texts(out@) =~= texts(held).push(id@));
                },
                _ => {},
            }
        }
        i = i + 1;
    }
    assert(all.take(all.len() as int) =~= all);
    Ok(out)
}

/// Finds the nodes of a walk that have the given id.
fn find_nodes<'a>(visits: &Vec<Visit<'a>>, id: &str, Ghost(all): Ghost<Seq<(ElementView, nat)>>) -> (r: Vec<
    &'a XmlElement,
>)
    requires
        visits_are(visits@, all),
    ensures
        element_views(r@) == nodes_with_id(all, id@),
{
    let mut out: Vec<&'a XmlElement> = Vec::new();
    assert(element_views(out@) =~= Seq::empty());
    let mut i: usize = 0;
    while i < visits.len()
        invariant
            i <= visits@.len(),
            visits_are(visits@, all),
            element_views(out@) == nodes_with_id(all.take(i as int), id@),
        decreases visits.len() - i,
    {
        let element = visits[i].element;
        let ghost held = out@;
        assert(all.take(i + 1).drop_last() =~= all.take(i as int));
        assert(all.take(i + 1).last() == all[i as int]);
        if *element.name.as_str() == *"node" && element.has_attribute_with_value("id", id) {
            out.push(element);
            assert(element_views(out@) =~= element_views(held).push(element@));
        }
        i = i + 1;
    }
    assert(all.take(all.len() as int) =~= all);
    out
}

impl ColladaDocument {
    /// Reads the skeletons of the given roots.
    fn read_skeletons_of(&self, roots: &Vec<&XmlElement>, data: &Vec<BindData>) -> (r: Result<
        Vec<Skeleton>,
        Malformed,
    >)
        ensures
            match r {
                Ok(list) => self@.skeletons_among(element_views(roots@), bind_data_views(data@))
                    == Ok::<_, Malformed>(skeleton_views(list@)),
                Err(_) => self@.skeletons_among(
                    element_views(roots@),
                    bind_data_views(data@),
                ) is Err,
            },
    {
        let ghost all = element_views(roots@);
        let ghost set = bind_data_views(data@);
        let mut out: Vec<Skeleton> = Vec::new();
        assert(skeleton_views(out@) =~= Seq::empty());
        let mut i: usize = 0;
        while i < roots.len()
            invariant
                i <= roots@.len(),
                all == element_views(roots@),
                set == bind_data_views(data@),
                self@.skeletons_among(all.take(i as int), set) == Ok::<_, Malformed>(
                    skeleton_views(out@),
                ),
            decreases roots.len() - i,
        {
            let ghost held = out@;
            assert(all.take(i + 1).drop_last() =~= all.take(i as int));
            assert(all.take(i + 1).last() == roots@[i as int]@);
            if data.len() == 0 {
                return Err(Malformed {  });
            }
            assert(set[0] == data@[0]@);
            match self.get_skeleton(roots[i], &data[0]) {
                Ok(Some(skeleton)) => {
                    out.push(skeleton);
                    assert(skeleton_views(out@) =~= skeleton_views(held).push(skeleton@));
                },
                Ok(None) => {},
                Err(e) => {
                    proof {
                        lemma_skeletons_malformed(self@, all, set, i + 1);
                    }
                    return Err(e);
                },
            }
            i = i + 1;
        }
        assert(all.take(all.len() as int) =~= all);
        Ok(out)
    }

    /// Reads the skeletons of the document.
    pub fn read_skeletons(&self) -> (r: Outcome<Vec<Skeleton>>)
        ensures
            skeletons_outcome(r) == self@.skeletons(),
    {
        let library = match self.root_element.get_child("library_visual_scenes", self.get_ns()) {
            Some(library) => library,
            None => {
                return Ok(None);
            },
        };
        let visual_scene = match library.get_child("visual_scene", self.get_ns()) {
            Some(scene) => scene,
            None => {
                return Ok(None);
            },
        };
        let bind_data_set = match self.read_bind_data_set() {
            Ok(Some(set)) => set,
            Ok(None) => {
                return Ok(None);
            },
            Err(e) => {
                return Err(e);
            },
        };
        let visits = pre_order_with_depth(visual_scene);
        let ghost all = pre_order(visual_scene@, 0);
        let ids = match read_skeleton_ids(&visits, Ghost(all)) {
            Ok(ids) => ids,
            Err(e) => {
                return Err(e);
            },
        };
        if ids.len() == 0 {
            return Ok(None);
        }
        assert(texts(ids@)[0] == ids@[0]@);
        let roots = find_nodes(&visits, ids[0].as_str(), Ghost(all));
        match self.read_skeletons_of(&roots, &bind_data_set.bind_data) {
            Ok(list) => Ok(Some(list)),
            Err(e) => Err(e),
        }
    }

    /// Returns the skeletons of the document.
    pub fn get_skeletons(&self) -> (r: Option<Vec<Skeleton>>)
        requires
            self@.skeletons() is Ok,
        ensures
            match r {
                Some(list) => self@.skeletons() == Ok::<_, Malformed>(
                    Some(skeleton_views(list@)),
                ),
                None => self@.skeletons() == Ok::<Option<Seq<SkeletonView>>, Malformed>(None),
            },
    {
        match self.read_skeletons() {
            Ok(r) => r,
            Err(_) => None,
        }
    }
}

} // verus!
