//! Skeletons, the data that binds meshes to them, and their animations.

use vstd::prelude::*;

use crate::number::{cells, cells_of_all, Matrix4, Number};
use crate::text::texts;

verus! {

/// The place of a joint in the list of a skeleton's joints.
pub type JointIndex = u8;

/// The parent index of a joint without a parent.
pub const ROOT_JOINT_PARENT_INDEX: JointIndex = 255;

/// A joint of a skeleton.
pub struct Joint {
    pub name: String,
    pub parent_index: JointIndex,
    pub inverse_bind_pose: Matrix4,
}

/// What a joint is, as plain values.
#[verifier::ext_equal]
pub ghost struct JointView {
    pub name: Seq<char>,
    pub parent_index: JointIndex,
    pub inverse_bind_pose: Seq<Number>,
}

impl View for Joint {
    type V = JointView;

    open spec fn view(&self) -> JointView {
        JointView {
            name: self.name@,
            parent_index: self.parent_index,
            inverse_bind_pose: cells(self.inverse_bind_pose),
        }
    }
}

/// What each of a list of joints is.
pub open spec fn joint_views(list: Seq<Joint>) -> Seq<JointView> {
    Seq::new(list.len(), |i: int| list[i]@)
}

/// The joints of a model, each after its parent, and the pose of each.
pub struct Skeleton {
    pub joints: Vec<Joint>,
    pub bind_poses: Vec<Matrix4>,
}

/// What a skeleton is, as plain values.
#[verifier::ext_equal]
pub ghost struct SkeletonView {
    pub joints: Seq<JointView>,
    pub bind_poses: Seq<Seq<Number>>,
}

impl View for Skeleton {
    type V = SkeletonView;

    open spec fn view(&self) -> SkeletonView {
        SkeletonView { joints: joint_views(self.joints@), bind_poses: cells_of_all(self.bind_poses@) }
    }
}

/// What each of a list of skeletons is.
pub open spec fn skeleton_views(list: Seq<Skeleton>) -> Seq<SkeletonView> {
    Seq::new(list.len(), |i: int| list[i]@)
}

/// How much a joint moves a vertex: places in the lists of vertices, of joint
/// names and of weights.
#[derive(Clone, Copy, PartialEq, Eq, Structural, Debug)]
pub struct VertexWeight {
    pub vertex: usize,
    pub joint: JointIndex,
    pub weight: usize,
}

/// What binds a mesh to a skeleton.
pub struct BindData {
    pub object_name: String,
    pub skeleton_name: String,
    pub joint_names: Vec<String>,
    pub inverse_bind_poses: Vec<Matrix4>,
    pub weights: Vec<Number>,
    pub vertex_weights: Vec<VertexWeight>,
}

/// What bind data is, as plain values.
#[verifier::ext_equal]
pub ghost struct BindDataView {
    pub object_name: Seq<char>,
    pub skeleton_name: Seq<char>,
    pub joint_names: Seq<Seq<char>>,
    pub inverse_bind_poses: Seq<Seq<Number>>,
    pub weights: Seq<Number>,
    pub vertex_weights: Seq<VertexWeight>,
}

impl View for BindData {
    type V = BindDataView;

    open spec fn view(&self) -> BindDataView {
        BindDataView {
            object_name: self.object_name@,
            skeleton_name: self.skeleton_name@,
            joint_names: texts(self.joint_names@),
            inverse_bind_poses: cells_of_all(self.inverse_bind_poses@),
            weights: self.weights@,
            vertex_weights: self.vertex_weights@,
        }
    }
}

/// What each of a list of bind data is.
pub open spec fn bind_data_views(list: Seq<BindData>) -> Seq<BindDataView> {
    Seq::new(list.len(), |i: int| list[i]@)
}

/// All the bind data of a document.
pub struct BindDataSet {
    pub bind_data: Vec<BindData>,
}

impl View for BindDataSet {
    type V = Seq<BindDataView>;

    open spec fn view(&self) -> Seq<BindDataView> {
        bind_data_views(self.bind_data@)
    }
}

/// The poses that an animation gives its target, and the times of them.
pub struct Animation {
    pub target: String,
    pub sample_times: Vec<Number>,
    pub sample_poses: Vec<Matrix4>,
}

/// What an animation is, as plain values.
#[verifier::ext_equal]
pub ghost struct AnimationView {
    pub target: Seq<char>,
    pub sample_times: Seq<Number>,
    pub sample_poses: Seq<Seq<Number>>,
}

impl View for Animation {
    type V = AnimationView;

    open spec fn view(&self) -> AnimationView {
        AnimationView {
            target: self.target@,
            sample_times: self.sample_times@,
            sample_poses: cells_of_all(self.sample_poses@),
        }
    }
}

/// What each of a list of animations is.
pub open spec fn animation_views(list: Seq<Animation>) -> Seq<AnimationView> {
    Seq::new(list.len(), |i: int| list[i]@)
}

} // verus!
